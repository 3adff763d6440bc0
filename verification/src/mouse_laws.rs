//! What is selected and reported with the mouse.

use crate::mouse::{
    cell_selection, cells_selection, mouse_report, row_selection, selected, selected_rows,
    without_trailing_spaces, ActionModel, CellPosition, ForwardedMouseState, MouseButton,
    MouseContext, MouseEvent, MouseScrollUnit, MouseSession, SelectionBounds, TerminalSelection,
    TouchMeasure, TouchPhase,
};
use crate::number::{Number, Point};
use crate::ratty_vt::cell::CellModel;
use crate::ratty_vt::screen_model::ScreenModel;
use crate::ratty_vt::term::{decimal, lemma_ascii_bytes};
use crate::ratty_vt::MouseProtocolEncoding;
use vstd::prelude::*;
use vstd::utf8::encode_utf8;

verus! {

// Selections.

/// Whether bounds can be counted in sixteen bits, as rows and columns of a screen are.
pub open spec fn bounds_fit(bounds: SelectionBounds) -> bool {
    bounds.start_row < 0x1_0000 && bounds.end_row < 0x1_0000 && bounds.start_col < 0x1_0000
        && bounds.end_col < 0x1_0000
}

/// The bounds of a selection hold the cell that it starts on and the one that it ends on,
/// and begin and end with a row and a column of one of the two.
pub proof fn law_bounds_hold_both_ends(
    selection: TerminalSelection,
    start: CellPosition,
    end: CellPosition,
)
    requires
        selection.start == Some(start),
        selection.end == Some(end) || selection.end is None && end == start,
    ensures
        selection.bounds() matches Some(bounds) && bounds.start_row <= start.y <= bounds.end_row
            && bounds.start_row <= end.y <= bounds.end_row && bounds.start_col <= start.x
            <= bounds.end_col && bounds.start_col <= end.x <= bounds.end_col && (bounds.start_row
            == start.y || bounds.start_row == end.y) && (bounds.end_row == start.y
            || bounds.end_row == end.y) && (bounds.start_col == start.x || bounds.start_col
            == end.x) && (bounds.end_col == start.x || bounds.end_col == end.x),
{
}

/// A cell is covered where it comes neither before the first nor behind the last cell of
/// the bounds, in reading order.
pub proof fn law_covered_cells_lie_between_the_ends(bounds: SelectionBounds, row: int, col: int)
    requires
        bounds.start_row <= bounds.end_row,
    ensures
        ({
            let before_start = row < bounds.start_row || row == bounds.start_row && col
                < bounds.start_col;
            let behind_end = row > bounds.end_row || row == bounds.end_row && col > bounds.end_col;
            bounds.covers(row, col) <==> !before_start && !behind_end
        }),
{
}

/// The text of the first `n` cells of a row that bounds cover: what each shows, a space for
/// one that shows nothing, and nothing for the second half of a wide character.
pub open spec fn covered_text(
    cells: Seq<CellModel>,
    bounds: SelectionBounds,
    row: int,
    n: int,
) -> Seq<char>
    decreases n,
{
    if n <= 0 {
        Seq::empty()
    } else {
        let before = covered_text(cells, bounds, row, n - 1);
        let cell = cells[n - 1];
        if !bounds.covers(row, n - 1) || cell.continuation {
            before
        } else if cell.text.len() == 0 {
            before.push(' ')
        } else {
            before + cell.text
        }
    }
}

/// The part of bounds that lies on one row.
pub open spec fn line_of(bounds: SelectionBounds, row: u32, cols: u16) -> SelectionBounds {
    SelectionBounds {
        start_row: row,
        end_row: row,
        start_col: if row == bounds.start_row {
            bounds.start_col
        } else {
            0
        },
        end_col: if row == bounds.end_row {
            bounds.end_col
        } else {
            (cols - 1) as u32
        },
    }
}

proof fn lemma_covered_cells(
    cells: Seq<CellModel>,
    bounds: SelectionBounds,
    row: int,
    from: int,
    to: int,
    n: int,
)
    requires
        0 <= from,
        0 <= n <= cells.len(),
        forall|j: int| 0 <= j < n ==> (bounds.covers(row, j) <==> from <= j < to),
    ensures
        covered_text(cells, bounds, row, n) == cells_selection(
            cells,
            from,
            if n < to {
                n
            } else {
                to
            },
        ),
    decreases n,
{
    if n > 0 {
        lemma_covered_cells(cells, bounds, row, from, to, n - 1);
        let before = covered_text(cells, bounds, row, n - 1);
        assert(bounds.covers(row, n - 1) <==> from <= n - 1 < to);
        if from <= n - 1 < to {
            let text = cell_selection(cells[n - 1]);
            assert(covered_text(cells, bounds, row, n) =~= before + text);
        }
    }
}

/// On each row that a selection reaches, the text is that of the cells that it covers, in
/// order.
pub proof fn law_covered_cells_are_selected(
    screen: ScreenModel,
    bounds: SelectionBounds,
    row: u32,
)
    requires
        screen.wf(),
        bounds_fit(bounds),
        bounds.start_row <= row <= bounds.end_row,
        row < screen.size().rows,
    ensures
        ({
            let cells = screen.active().visible()[row as int].cells;
            let cols = screen.size().cols;
            selected(screen, line_of(bounds, row, cols)) == covered_text(
                cells,
                bounds,
                row as int,
                if cells.len() < cols {
                    cells.len() as int
                } else {
                    cols as int
                },
            )
        }),
{
    let cells = screen.active().visible()[row as int].cells;
    let cols = screen.size().cols;
    let line = line_of(bounds, row, cols);
    let n = if cells.len() < cols {
        cells.len() as int
    } else {
        cols as int
    };
    let from = line.start_col as int;
    let last = if line.end_col < cols {
        line.end_col as int
    } else {
        cols - 1
    };
    assert(selected_rows(screen, line, row as int) =~= Seq::<char>::empty());
    assert(selected(screen, line) =~= row_selection(screen, row as int, from, last));
    let to = if last < cells.len() {
        last + 1
    } else {
        cells.len() as int
    };
    lemma_covered_cells(cells, bounds, row as int, from, last + 1, n);
}

proof fn lemma_cut_keeps_start(start: Seq<char>, text: Seq<char>)
    requires
        start.len() > 0,
        start.last() != ' ',
    ensures
        without_trailing_spaces(start + text) == start + without_trailing_spaces(text),
    decreases text.len(),
{
    if text.len() == 0 {
        assert(start + text =~= start);
    } else {
        assert((start + text).last() == text.last());
        if text.last() == ' ' {
            assert((start + text).drop_last() =~= start + text.drop_last());
            lemma_cut_keeps_start(start, text.drop_last());
        }
    }
}

proof fn lemma_same_rows(
    screen: ScreenModel,
    bounds: SelectionBounds,
    upper: SelectionBounds,
    n: int,
)
    requires
        bounds_fit(bounds),
        screen.size().cols > 0,
        upper.end_row < bounds.end_row,
        upper == (SelectionBounds {
            end_row: upper.end_row,
            end_col: (screen.size().cols - 1) as u32,
            ..bounds
        }),
        n <= upper.end_row,
    ensures
        selected_rows(screen, bounds, n) == selected_rows(screen, upper, n),
    decreases n - bounds.start_row,
{
    if n > bounds.start_row {
        lemma_same_rows(screen, bounds, upper, n - 1);
    }
}

proof fn lemma_rows_behind(
    screen: ScreenModel,
    bounds: SelectionBounds,
    lower: SelectionBounds,
    start: Seq<char>,
    n: int,
)
    requires
        bounds_fit(bounds),
        bounds.start_row < lower.start_row <= bounds.end_row,
        lower == (SelectionBounds { start_row: lower.start_row, start_col: 0, ..bounds }),
        selected_rows(screen, bounds, lower.start_row as int) == start,
        start.len() > 0,
        start.last() == '\n',
        lower.start_row <= n <= bounds.end_row + 1,
    ensures
        selected_rows(screen, bounds, n) == start + selected_rows(screen, lower, n),
    decreases n,
{
    if n == lower.start_row {
        assert(start + selected_rows(screen, lower, n) =~= start);
    } else {
        lemma_rows_behind(screen, bounds, lower, start, n - 1);
        let row = n - 1;
        let end = bounds.end_row as int;
        let last = if row == end && bounds.end_col < screen.size().cols {
            bounds.end_col as int
        } else {
            screen.size().cols - 1
        };
        let before = selected_rows(screen, lower, row);
        let text = row_selection(screen, row, 0, last);
        assert(start + before + text =~= start + (before + text));
        lemma_cut_keeps_start(start, before + text);
        assert(selected_rows(screen, bounds, n) =~= start + selected_rows(screen, lower, n));
    }
}

/// What is selected on several rows is what is selected down to the end of one of them,
/// without the spaces at its end, a line break, and what is selected from the start of the
/// next row on.
pub proof fn law_selected_rows_are_lines(
    screen: ScreenModel,
    bounds: SelectionBounds,
    row: u32,
)
    requires
        screen.wf(),
        bounds_fit(bounds),
        bounds.start_row <= row < bounds.end_row,
    ensures
        ({
            let upper = SelectionBounds {
                end_row: row,
                end_col: (screen.size().cols - 1) as u32,
                ..bounds
            };
            let lower = SelectionBounds { start_row: (row + 1) as u32, start_col: 0, ..bounds };
            selected(screen, bounds) == without_trailing_spaces(selected(screen, upper)).push('\n')
                + selected(screen, lower)
        }),
{
    let upper = SelectionBounds {
        end_row: row,
        end_col: (screen.size().cols - 1) as u32,
        ..bounds
    };
    let lower = SelectionBounds { start_row: (row + 1) as u32, start_col: 0, ..bounds };
    lemma_same_rows(screen, bounds, upper, row as int);
    let start = without_trailing_spaces(selected(screen, upper)).push('\n');
    assert(selected_rows(screen, bounds, row + 1) == start);
    lemma_rows_behind(screen, bounds, lower, start, bounds.end_row + 1);
}

/// Text that loses the spaces at its end keeps all before them, and ends with something
/// else then.
pub proof fn law_trailing_spaces_are_cut(text: Seq<char>)
    ensures
        ({
            let cut = without_trailing_spaces(text);
            &&& cut.len() <= text.len()
            &&& cut == text.take(cut.len() as int)
            &&& cut.len() > 0 ==> cut.last() != ' '
            &&& forall|i: int| cut.len() <= i < text.len() ==> #[trigger] text[i] == ' '
        }),
    decreases text.len(),
{
    if text.len() > 0 && text.last() == ' ' {
        let before = text.drop_last();
        law_trailing_spaces_are_cut(before);
        let cut = without_trailing_spaces(text);
        assert(before.take(cut.len() as int) =~= text.take(cut.len() as int));
        assert forall|i: int| cut.len() <= i < text.len() implies #[trigger] text[i] == ' ' by {
            if i < before.len() {
                assert(before[i] == text[i]);
            }
        }
    } else {
        assert(text.take(text.len() as int) =~= text);
    }
}

// Reports.

/// A report names the button, the column and the row, in this order, both counted from one.
/// In the encoding with digits it ends in a capital letter for a button that goes down and
/// in a small one for one that goes up. In the encoding with bytes each is a byte, above
/// those of control characters, and a button that goes up has no name.
pub proof fn law_reports_say_what_and_where(cell: CellPosition, button_code: u16, release: bool)
    requires
        cell.x < u32::MAX,
        cell.y < u32::MAX,
    ensures
        mouse_report(cell, button_code, release, MouseProtocolEncoding::Sgr) == seq![
            0x1bu8,
            '[' as u8,
            '<' as u8,
        ] + decimal(button_code as nat) + seq![';' as u8] + decimal((cell.x + 1) as nat) + seq![
            ';' as u8,
        ] + decimal((cell.y + 1) as nat) + seq![
            if release {
                'm' as u8
            } else {
                'M' as u8
            },
        ],
        cell.x < 222 && cell.y < 222 && button_code < 100 ==> mouse_report(
            cell,
            button_code,
            release,
            MouseProtocolEncoding::Default,
        ) == seq![
            0x1bu8,
            '[' as u8,
            'M' as u8,
            (32 + (if release {
                3
            } else {
                button_code as int
            })) as u8,
            (33 + cell.x) as u8,
            (33 + cell.y) as u8,
        ],
        mouse_report(cell, button_code, release, MouseProtocolEncoding::Utf8) == mouse_report(
            cell,
            button_code,
            release,
            MouseProtocolEncoding::Default,
        ),
{
    reveal_strlit("\x1b[<");
    reveal_strlit("\x1b[M");
    reveal_strlit(";");
    reveal_strlit("m");
    reveal_strlit("M");
    lemma_ascii_bytes("\x1b[<"@);
    lemma_ascii_bytes("\x1b[M"@);
    lemma_ascii_bytes(";"@);
    lemma_ascii_bytes("m"@);
    lemma_ascii_bytes("M"@);
    assert(encode_utf8("\x1b[<"@) =~= seq![0x1bu8, '[' as u8, '<' as u8]);
    assert(encode_utf8("\x1b[M"@) =~= seq![0x1bu8, '[' as u8, 'M' as u8]);
    assert(encode_utf8(";"@) =~= seq![';' as u8]);
    assert(encode_utf8("m"@) =~= seq!['m' as u8]);
    assert(encode_utf8("M"@) =~= seq!['M' as u8]);
    assert(mouse_report(cell, button_code, release, MouseProtocolEncoding::Default)
        =~= encode_utf8("\x1b[M"@) + seq![
        crate::mouse::button_byte(button_code, release),
        crate::mouse::coordinate_byte(cell.x),
        crate::mouse::coordinate_byte(cell.y),
    ]);
}

// Sessions.

/// Whether the application gets the mouse: the terminal is flat, and it asked for it.
pub open spec fn application_has_mouse(context: MouseContext) -> bool {
    context.mode is Flat2d && !(context.protocol is Off)
}

/// The number of a button in reports.
pub open spec fn button_number(button: MouseButton) -> u16 {
    match button {
        MouseButton::Left => 0,
        MouseButton::Middle => 1,
        _ => 2,
    }
}

pub open spec fn is_held(forwarded: ForwardedMouseState, button: MouseButton) -> bool {
    match button {
        MouseButton::Left => forwarded.left_pressed,
        MouseButton::Middle => forwarded.middle_pressed,
        MouseButton::Right => forwarded.right_pressed,
        MouseButton::Other => false,
    }
}

/// An application that asked for the mouse is told of each of the three buttons, where it
/// goes down and up, and nothing is selected or turned; which buttons are down is
/// remembered, each for itself.
pub proof fn law_applications_are_told_of_buttons(
    session: MouseSession,
    context: MouseContext,
    button: MouseButton,
    other: MouseButton,
    pressed: bool,
    cell: CellPosition,
    remembered: Option<CellPosition>,
)
    requires
        application_has_mouse(context),
        !(button is Other),
        other != button,
    ensures
        ({
            let (next, action) = session.handled(
                MouseEvent::Button { button, pressed, cell: Some(cell), remembered },
                context,
            );
            &&& action == ActionModel::Send(
                mouse_report(cell, button_number(button), !pressed, context.encoding),
            )
            &&& is_held(next.forwarded, button) == pressed
            &&& is_held(next.forwarded, other) == is_held(session.forwarded, other)
            &&& next.forwarded.last_cell == Some(cell)
            &&& next.selection == session.selection
            &&& next.interaction == session.interaction
            &&& next.touch == session.touch
        }),
{
}

/// An application is told of a movement to another cell where it asked for all of them, or
/// for those with a button down and one is: with the number of the button plus 32, or 35
/// where none is. It is not told otherwise, nor twice of one cell.
pub proof fn law_applications_are_told_of_movements(
    session: MouseSession,
    context: MouseContext,
    position: Point,
    cell: CellPosition,
    far: bool,
)
    requires
        application_has_mouse(context),
    ensures
        ({
            let (next, action) = session.handled(
                MouseEvent::Moved { position, cell: Some(cell), far },
                context,
            );
            let held = session.forwarded;
            let any = held.left_pressed || held.middle_pressed || held.right_pressed;
            let wanted = context.protocol is AnyMotion || context.protocol is ButtonMotion && any;
            let code: u16 = if held.left_pressed {
                32
            } else if held.middle_pressed {
                33
            } else if held.right_pressed {
                34
            } else {
                35
            };
            &&& wanted && held.last_cell != Some(cell) ==> action == ActionModel::Send(
                mouse_report(cell, code, false, context.encoding),
            ) && next.forwarded.last_cell == Some(cell)
            &&& !wanted || held.last_cell == Some(cell) ==> action is Ignore && next.forwarded
                == held
            &&& next.forwarded.left_pressed == held.left_pressed
            &&& next.forwarded.middle_pressed == held.middle_pressed
            &&& next.forwarded.right_pressed == held.right_pressed
            &&& next.selection.start == session.selection.start
            &&& next.selection.end == session.selection.end
            &&& next.selection.cursor_position == Some(position)
        }),
{
}

/// A wheel that turns is told to an application that asked for the mouse, upwards with
/// number 64 and downwards with 65. Else it scrolls the view of the main screen by lines,
/// upwards back in history, and what was selected is no longer; on the alternate screen
/// it does nothing; and in space it zooms.
pub proof fn law_wheels_report_scroll_or_zoom(
    session: MouseSession,
    context: MouseContext,
    delta: Number,
    cell: CellPosition,
)
    requires
        delta.positive() || delta.negative(),
        isize::MIN < -(context.scroll_lines as int),
        context.scroll_lines > 0,
    ensures
        ({
            let (next, action) = session.handled(
                MouseEvent::Wheel { unit: MouseScrollUnit::Line, delta, cell: Some(cell) },
                context,
            );
            let lines = context.scroll_lines as int;
            let target = if delta.positive() {
                context.scrollback + lines
            } else {
                context.scrollback - lines
            };
            &&& application_has_mouse(context) ==> next == session && action == ActionModel::Send(
                mouse_report(
                    cell,
                    if delta.positive() {
                        64
                    } else {
                        65
                    },
                    false,
                    context.encoding,
                ),
            )
            &&& context.mode is Flat2d && context.protocol is Off && !context.alternate_screen ==> {
                &&& action matches ActionModel::ScrollTo(rows) && (0 <= target <= usize::MAX
                    ==> rows == target) && (target < 0 ==> rows == 0) && (target > usize::MAX
                    ==> rows == usize::MAX)
                &&& next.selection.start is None && next.selection.end is None
                &&& next.forwarded == session.forwarded
            }
            &&& context.mode is Flat2d && context.protocol is Off && context.alternate_screen
                ==> next == session && action is Ignore
            &&& !(context.mode is Flat2d) ==> next == session && action is Zoom
        }),
{
}

/// Where no application has the mouse, the left button selects on the flat terminal: from
/// the cell where it went down, once the pointer went far enough, to the cell that the
/// pointer is on, and what is selected stays when the button goes up.
pub proof fn law_the_left_button_selects(
    session: MouseSession,
    context: MouseContext,
    from: CellPosition,
    to: CellPosition,
    start: Point,
    end: Point,
    cell: Option<CellPosition>,
)
    requires
        context.mode is Flat2d,
        context.protocol is Off,
        session.selection.cursor_position == Some(start),
    ensures
        ({
            let down = session.handled(
                MouseEvent::Button {
                    button: MouseButton::Left,
                    pressed: true,
                    cell,
                    remembered: Some(from),
                },
                context,
            ).0;
            let (still, nothing) = down.handled(
                MouseEvent::Moved { position: end, cell: Some(to), far: false },
                context,
            );
            let (dragged, action) = down.handled(
                MouseEvent::Moved { position: end, cell: Some(to), far: true },
                context,
            );
            let up = dragged.handled(
                MouseEvent::Button {
                    button: MouseButton::Left,
                    pressed: false,
                    cell,
                    remembered: Some(to),
                },
                context,
            ).0;
            &&& down.selection.bounds() is None
            &&& still.selection.bounds() is None && nothing is Ignore
            &&& action is Redraw
            &&& dragged.selection.start == Some(from) && dragged.selection.end == Some(to)
            &&& up.selection.start == Some(from) && up.selection.end == Some(to)
            &&& !up.selection.dragging
            &&& up.forwarded == session.forwarded && up.interaction == session.interaction
        }),
{
}

/// In space the left button turns the camera and the right one shifts it, as far as the
/// pointer moves while it is down.
pub proof fn law_buttons_move_the_camera(
    session: MouseSession,
    context: MouseContext,
    start: Point,
    end: Point,
    cell: Option<CellPosition>,
    far: bool,
)
    requires
        !(context.mode is Flat2d),
        !(context.mode is Mobius3d && context.transition_active),
        session.selection.cursor_position == Some(start),
        !session.interaction.rotating,
        !session.interaction.panning,
    ensures
        ({
            let press = |button: MouseButton|
                session.handled(
                    MouseEvent::Button { button, pressed: true, cell, remembered: cell },
                    context,
                ).0;
            let moved = MouseEvent::Moved { position: end, cell, far };
            let (turned, turn) = press(MouseButton::Left).handled(moved, context);
            let (shifted, shift) = press(MouseButton::Right).handled(moved, context);
            let release = MouseEvent::Button {
                button: MouseButton::Left,
                pressed: false,
                cell,
                remembered: cell,
            };
            &&& turn == ActionModel::Rotate { from: start, to: end }
            &&& shift == ActionModel::Pan { from: start, to: end }
            &&& turned.handled(moved, context).1 == ActionModel::Rotate { from: end, to: end }
            &&& turned.handled(release, context).0.handled(moved, context).1 is Ignore
            &&& session.handled(moved, context).1 is Ignore
            &&& turned.selection.start == session.selection.start
            &&& turned.forwarded == session.forwarded
        }),
{
}

// Fingers.

/// What a session makes of a finger.
pub open spec fn after_touch(
    session: MouseSession,
    id: u64,
    phase: TouchPhase,
    position: Point,
    measure: TouchMeasure,
    context: MouseContext,
) -> (MouseSession, ActionModel) {
    session.handled(MouseEvent::Touch { id, phase, position, measure }, context)
}

/// The first finger on the window turns the camera of a terminal in space when it moves, and
/// two fingers shift it and zoom; on the flat terminal they do nothing.
pub proof fn law_fingers_move_the_camera(
    session: MouseSession,
    first: u64,
    second: u64,
    a: Point,
    b: Point,
    position: Point,
    measure: TouchMeasure,
    context: MouseContext,
)
    requires
        first != second,
        session.touch.primary == Some((first, a)),
        session.touch.mobius_swipe_start is None,
    ensures
        ({
            let moves = !(context.mode is Flat2d) && !(context.mode is Mobius3d
                && context.transition_active);
            let (turned, turn) = after_touch(
                session,
                first,
                TouchPhase::Moved,
                position,
                measure,
                context,
            );
            let (pinched, pinch) = after_touch(
                session,
                second,
                TouchPhase::Moved,
                position,
                measure,
                context,
            );
            &&& turned.touch.primary == Some((first, position))
            &&& turned.touch.secondary == session.touch.secondary
            &&& session.touch.secondary is None ==> turn == if moves {
                ActionModel::Rotate { from: a, to: position }
            } else {
                ActionModel::Ignore
            }
            &&& session.touch.secondary == Some((second, b)) ==> {
                &&& pinched.touch.primary == Some((first, a))
                &&& pinched.touch.secondary == Some((second, position))
                &&& turn == if moves {
                    ActionModel::PanAndZoom { before: (a, b), after: (position, b) }
                } else {
                    ActionModel::Ignore
                }
                &&& pinch == if moves {
                    ActionModel::PanAndZoom { before: (a, b), after: (a, position) }
                } else {
                    ActionModel::Ignore
                }
            }
            &&& session.touch.secondary is None ==> pinched == session && pinch is Ignore
        }),
{
}

/// A finger that touches the window is the first, or else the second; a third one is not
/// followed. Where the first one is lifted, the second takes its place.
pub proof fn law_fingers_are_followed(
    session: MouseSession,
    id: u64,
    position: Point,
    measure: TouchMeasure,
    context: MouseContext,
    other: u64,
    phase: TouchPhase,
)
    requires
        session.touch.wf(),
        phase is Ended || phase is Canceled,
    ensures
        ({
            let before = session.touch;
            let (down, nothing) = after_touch(
                session,
                id,
                TouchPhase::Started,
                position,
                measure,
                context,
            );
            let up = after_touch(session, id, phase, position, measure, context).0;
            &&& nothing is Ignore
            &&& before.primary is None ==> down.touch.primary == Some((id, position))
                && down.touch.secondary == before.secondary && (measure.in_corner
                ==> down.touch.mobius_swipe_start == Some(position))
            &&& (before.primary matches Some(held) && held.0 != id) && before.secondary is None
                ==> down.touch.primary == before.primary && down.touch.secondary == Some(
                (id, position),
            ) && down.touch.mobius_swipe_start is None
            &&& before.secondary is Some ==> down.touch == before
            &&& (before.primary matches Some(held) && held.0 == id) ==> up.touch.primary
                == before.secondary && up.touch.secondary is None && up.touch.mobius_swipe_start
                is None
            &&& (before.secondary matches Some(held) && held.0 == id) ==> up.touch.primary
                == before.primary && up.touch.secondary is None
            &&& !(before.primary matches Some(held) && held.0 == id) && !(before.secondary matches Some(
                held,
            ) && held.0 == id) ==> up == session
        }),
{
}

/// One finger that went from the corner far enough enters the strip and clears the selection;
/// while it may still do so it turns nothing.
pub proof fn law_fingers_from_the_corner_enter_the_strip(
    session: MouseSession,
    id: u64,
    from: Point,
    start: Point,
    position: Point,
    measure: TouchMeasure,
    context: MouseContext,
)
    requires
        session.touch.primary == Some((id, from)),
        session.touch.secondary is None,
        session.touch.mobius_swipe_start == Some(start),
    ensures
        ({
            let (after, action) = after_touch(
                session,
                id,
                TouchPhase::Moved,
                position,
                measure,
                context,
            );
            &&& measure.swiped ==> action is EnterMobius && after.selection.start is None
                && after.selection.end is None && after.touch.primary is None
                && after.touch.mobius_swipe_start is None
            &&& !measure.swiped && measure.reserved ==> action is Ignore
                && after.touch.mobius_swipe_start == Some(start)
            &&& !measure.swiped && !measure.reserved ==> after.touch.mobius_swipe_start is None
            &&& !measure.swiped && !measure.reserved && context.mode is Plane3d ==> action == (
            ActionModel::Rotate { from, to: position })
        }),
{
}

/// A window that loses the focus lets go of everything, and an application that was told of
/// buttons going down is told that they went up, in the order left, middle, right.
pub proof fn law_lost_focus_lets_go(session: MouseSession, context: MouseContext, cell: CellPosition)
    requires
        session.forwarded.last_cell == Some(cell),
    ensures
        ({
            let (after, action) = session.handled(MouseEvent::FocusLost, context);
            let held = session.forwarded;
            let up = |pressed: bool, code: u16|
                if pressed {
                    mouse_report(cell, code, true, context.encoding)
                } else {
                    Seq::<u8>::empty()
                };
            let all = up(held.left_pressed, 0) + up(held.middle_pressed, 1) + up(
                held.right_pressed,
                2,
            );
            &&& !after.forwarded.left_pressed && !after.forwarded.middle_pressed
                && !after.forwarded.right_pressed && after.forwarded.last_cell is None
            &&& !after.interaction.rotating && !after.interaction.panning
            &&& !after.selection.dragging && after.selection.pending_start is None
            &&& after.selection.start == session.selection.start && after.selection.end
                == session.selection.end
            &&& after.touch.primary is None && after.touch.secondary is None
            &&& context.protocol is Off || all.len() == 0 ==> action is Ignore
            &&& !(context.protocol is Off) && all.len() > 0 ==> action == ActionModel::Send(all)
        }),
{
}

/// A selection that is begun covers the cell that it is begun on alone.
pub proof fn law_begun_selections_cover_a_cell(selection: TerminalSelection, cell: CellPosition)
    ensures
        selection.begun(cell).dragging,
        selection.begun(cell).bounds() matches Some(bounds) && bounds.start_row == cell.y
            && bounds.end_row == cell.y && bounds.start_col == cell.x && bounds.end_col == cell.x,
        selection.begun(cell).cursor_position == selection.cursor_position,
{
}

} // verus!
