//! What erasing, inserting, deleting and typing does to the cells of a screen.

use crate::ratty_vt::attrs::AttrsModel;
use crate::ratty_vt::cell::CellModel;
use crate::ratty_vt::event::EventModel;
use crate::ratty_vt::grid::Pos;
use crate::ratty_vt::grid_model::{
    lemma_col_wrap, max_int, min_int, row_cells_removed, GridModel,
};
use crate::ratty_vt::row::RowModel;
use crate::ratty_vt::screen_laws::{
    after_control, after_csi, asked, attrs_are_default, only_rows_changed, only_the_grid_changed,
    shown_grid, shows_nothing,
};
use crate::ratty_vt::screen_model::{owner_col, row_drawn, row_joined, ScreenModel};
use crate::ratty_vt::unicode::{char_columns, stands_apart, text_width};
use crate::ratty_vt::wide::{whole, whole_at};
use vstd::prelude::*;

verus! {

/// Whether a cell was erased: it shows nothing, with the attributes of new text.
pub open spec fn is_erased(cell: CellModel, attrs: AttrsModel) -> bool {
    shows_nothing(cell) && cell.attrs == attrs
}

/// Whether a cell lost its half of a wide character: it shows nothing, with the attributes
/// that it had.
pub open spec fn lost_its_half(before: CellModel, after: CellModel) -> bool {
    shows_nothing(after) && after.attrs == before.attrs
}

/// Whether the cells of some columns of a row were erased. A wide character that is only
/// partly among them goes too, and every other cell stays.
pub open spec fn columns_erased(
    before: Seq<CellModel>,
    after: Seq<CellModel>,
    from: int,
    to: int,
    attrs: AttrsModel,
) -> bool {
    &&& after.len() == before.len()
    &&& forall|j: int| from <= j < to ==> is_erased(#[trigger] after[j], attrs)
    &&& forall|j: int|
        0 <= j < before.len() && !(from <= j < to) ==> if from < to && (j + 1 == from
            && before[from].continuation || j == to && before[to - 1].wide) {
            lost_its_half(before[j], #[trigger] after[j])
        } else {
            after[j] == before[j]
        }
}

proof fn lemma_around(cells: Seq<CellModel>, j: int)
    requires
        whole(cells),
    ensures
        0 <= j < cells.len() && cells[j].wide ==> j + 1 < cells.len() && cells[j + 1].continuation
            && !cells[j].continuation && !cells[j + 1].wide,
        0 <= j < cells.len() && cells[j].continuation ==> j > 0 && cells[j - 1].wide
            && !cells[j].wide,
        0 <= j && j + 1 < cells.len() && !cells[j].wide ==> !cells[j + 1].continuation,
{
    reveal(whole);
    if 0 <= j < cells.len() {
        assert(whole_at(cells, j));
    }
    if 0 <= j - 1 < cells.len() {
        assert(whole_at(cells, j - 1));
    }
    if 0 <= j + 1 < cells.len() {
        assert(whole_at(cells, j + 1));
    }
}

/// Columns erased one after the other, as far as a column.
#[verifier::spinoff_prover]
proof fn lemma_erased(row: RowModel, from: int, to: int, attrs: AttrsModel)
    requires
        whole(row.cells),
        0 <= from,
        to <= row.cells.len(),
    ensures
        ({
            let after = row.erased_range(from, to, attrs);
            let ends = to == row.cells.len() || to + 1 == row.cells.len() && row.cells[to - 1].wide;
            &&& columns_erased(row.cells, after.cells, from, to, attrs)
            &&& after.placeholder == row.placeholder
            &&& after.wrapped == (row.wrapped && !(from < to && ends))
        }),
    decreases to - from,
{
    if from < to {
        lemma_erased(row, from, to - 1, attrs);
        let before = row.erased_range(from, to - 1, attrs);
        let after = row.erased_range(from, to, attrs);
        lemma_around(row.cells, to - 1);
        lemma_around(row.cells, to - 2);
        lemma_around(row.cells, to);
        lemma_around(row.cells, from);
        assert forall|j: int| 0 <= j < row.cells.len() && !(from <= j < to) implies if j + 1 == from
            && row.cells[from].continuation || j == to && row.cells[to - 1].wide {
            lost_its_half(row.cells[j], #[trigger] after.cells[j])
        } else {
            after.cells[j] == row.cells[j]
        } by {
            lemma_around(row.cells, j);
        }
        assert forall|j: int| from <= j < to implies is_erased(#[trigger] after.cells[j], attrs) by {
            if j < to - 1 {
                assert(is_erased(before.cells[j], attrs));
            }
        }
    }
}

/// Whether the cursor's row had some columns erased, and all other rows stay.
pub open spec fn erased_on_row(before: GridModel, after: GridModel, from: int, to: int, attrs: AttrsModel) -> bool {
    let row = before.pos.row as int;
    &&& columns_erased(before.rows[row].cells, after.rows[row].cells, from, to, attrs)
    &&& forall|i: int|
        0 <= i < before.rows.len() && i != row ==> #[trigger] after.rows[i] == before.rows[i]
}

/// Whether a row was erased as a whole: all its cells are, and it wraps no more.
pub open spec fn row_is_erased(before: RowModel, after: RowModel, attrs: AttrsModel) -> bool {
    &&& after.cells.len() == before.cells.len()
    &&& !after.wrapped
    &&& forall|j: int| 0 <= j < after.cells.len() ==> is_erased(#[trigger] after.cells[j], attrs)
}

/// The number of columns up to and with the cursor.
pub open spec fn columns_to_cursor(grid: GridModel) -> int {
    if grid.pos.col < grid.size.cols {
        grid.pos.col + 1
    } else {
        grid.size.cols as int
    }
}

proof fn lemma_grid_is(screen: ScreenModel, params: Seq<Seq<u16>>, c: char, grid: GridModel)
    requires
        c != 'm',
        c != 't',
        screen.parted().csi_plain(params, c) == Some(screen.parted().with_active(grid)),
    ensures
        only_the_grid_changed(screen, after_csi(screen, params, c)),
        shown_grid(after_csi(screen, params, c)) == grid,
{
    reveal(ScreenModel::performed);
}

/// Erasing in the line (`CSI n K`) erases from the cursor on, up to and with the cursor, or
/// the whole line; nothing else changes.
pub proof fn law_lines_are_erased(screen: ScreenModel, params: Seq<Seq<u16>>)
    requires
        screen.wf(),
        screen.whole(),
        asked(params, 0, 0) < 3,
    ensures
        ({
            let n = asked(params, 0, 0);
            let after = after_csi(screen, params, 'K');
            let (old_grid, new_grid) = (shown_grid(screen), shown_grid(after));
            let row = old_grid.pos.row as int;
            &&& only_the_grid_changed(screen, after)
            &&& only_rows_changed(old_grid, new_grid)
            &&& n == 0 ==> erased_on_row(
                old_grid,
                new_grid,
                old_grid.pos.col as int,
                old_grid.size.cols as int,
                screen.attrs,
            )
            &&& n == 1 ==> erased_on_row(
                old_grid,
                new_grid,
                0,
                columns_to_cursor(old_grid),
                screen.attrs,
            )
            &&& n == 2 ==> erased_on_row(
                old_grid,
                new_grid,
                0,
                old_grid.size.cols as int,
                screen.attrs,
            ) && !new_grid.rows[row].wrapped
        }),
{
    let grid = shown_grid(screen);
    let n = asked(params, 0, 0);
    let attrs = screen.attrs;
    let cols = grid.size.cols as int;
    let row = grid.current_row();
    assert(whole(row.cells));
    lemma_erased(row, grid.pos.col as int, cols, attrs);
    lemma_erased(row, 0, columns_to_cursor(grid), attrs);
    let after = if n == 0 {
        grid.erased_row_forward(attrs)
    } else if n == 1 {
        grid.erased_row_backward(attrs)
    } else {
        grid.erased_row(attrs)
    };
    assert(screen.parted().csi_plain(params, 'K') == Some(screen.parted().with_active(after))) by {
        reveal(ScreenModel::csi_plain);
        reveal(ScreenModel::line_erased);
    }
    lemma_grid_is(screen, params, 'K', after);
}

/// Erasing in the display (`CSI n J`) erases from the cursor on, up to and with the cursor,
/// or everything: on the row of the cursor by columns, the rows below or above it as a
/// whole. Nothing else changes.
pub proof fn law_displays_are_erased(screen: ScreenModel, params: Seq<Seq<u16>>, i: int)
    requires
        screen.wf(),
        screen.whole(),
        asked(params, 0, 0) < 3,
        0 <= i < shown_grid(screen).rows.len(),
    ensures
        ({
            let n = asked(params, 0, 0);
            let after = after_csi(screen, params, 'J');
            let (old_grid, new_grid) = (shown_grid(screen), shown_grid(after));
            let row = old_grid.pos.row as int;
            let (a, b) = (old_grid.rows[i], new_grid.rows[i]);
            &&& only_the_grid_changed(screen, after)
            &&& only_rows_changed(old_grid, new_grid)
            &&& n == 2 || n == 0 && i > row || n == 1 && i < row ==> row_is_erased(a, b, screen.attrs)
            &&& n == 0 && i < row || n == 1 && i > row ==> b == a
            &&& n == 0 && i == row ==> columns_erased(
                a.cells,
                b.cells,
                old_grid.pos.col as int,
                old_grid.size.cols as int,
                screen.attrs,
            )
            &&& n == 1 && i == row ==> columns_erased(
                a.cells,
                b.cells,
                0,
                columns_to_cursor(old_grid),
                screen.attrs,
            )
        }),
{
    let grid = shown_grid(screen);
    let n = asked(params, 0, 0);
    let attrs = screen.attrs;
    let row = grid.current_row();
    assert(whole(row.cells));
    lemma_erased(row, grid.pos.col as int, grid.size.cols as int, attrs);
    lemma_erased(row, 0, columns_to_cursor(grid), attrs);
    let after = if n == 0 {
        grid.erased_all_forward(attrs)
    } else if n == 1 {
        grid.erased_all_backward(attrs)
    } else {
        grid.erased_all(attrs)
    };
    assert(screen.parted().csi_plain(params, 'J') == Some(screen.parted().with_active(after))) by {
        reveal(ScreenModel::csi_plain);
        reveal(ScreenModel::display_erased);
    }
    lemma_grid_is(screen, params, 'J', after);
}

/// Erasing characters (`CSI n X`) erases as many cells from the cursor on as are asked for,
/// as far as the row goes; nothing moves.
pub proof fn law_characters_are_erased(screen: ScreenModel, params: Seq<Seq<u16>>)
    requires
        screen.wf(),
        screen.whole(),
    ensures
        ({
            let n = asked(params, 0, 1);
            let after = after_csi(screen, params, 'X');
            let (old_grid, new_grid) = (shown_grid(screen), shown_grid(after));
            let end = old_grid.pos.col + n;
            &&& only_the_grid_changed(screen, after)
            &&& only_rows_changed(old_grid, new_grid)
            &&& erased_on_row(
                old_grid,
                new_grid,
                old_grid.pos.col as int,
                if end < old_grid.size.cols { end } else { old_grid.size.cols as int },
                screen.attrs,
            )
        }),
{
    let grid = shown_grid(screen);
    let n = asked(params, 0, 1);
    let end = grid.pos.col + n;
    let to = if end < grid.size.cols { end } else { grid.size.cols as int };
    assert(whole(grid.current_row().cells));
    lemma_erased(grid.current_row(), grid.pos.col as int, to, screen.attrs);
    let after = grid.erased_cells(n, screen.attrs);
    assert(screen.parted().csi_plain(params, 'X') == Some(screen.parted().with_active(after))) by {
        reveal(ScreenModel::csi_plain);
    }
    lemma_grid_is(screen, params, 'X', after);
}

/// The cells of a row without some of them.
spec fn cells_left(cells: Seq<CellModel>, col: int, n: int) -> Seq<CellModel> {
    Seq::new(
        (cells.len() - n) as nat,
        |j: int|
            if j < col {
                if n > 0 && j + 1 == col && cells[col].continuation {
                    CellModel::cleared(cells[j].attrs)
                } else {
                    cells[j]
                }
            } else if n > 0 && j == col && cells[j + n].continuation {
                CellModel::cleared(cells[j + n].attrs)
            } else {
                cells[j + n]
            },
    )
}

/// Cells removed one after the other.
#[verifier::spinoff_prover]
proof fn lemma_removed(row: RowModel, col: int, n: int)
    requires
        whole(row.cells),
        0 <= col,
        0 <= n,
        col + n <= row.cells.len(),
    ensures
        row_cells_removed(row, col, n).cells == cells_left(row.cells, col, n),
    decreases n,
{
    let after = row_cells_removed(row, col, n).cells;
    if n > 0 {
        lemma_removed(row, col, n - 1);
        let before = row_cells_removed(row, col, n - 1).cells;
        lemma_around(row.cells, col);
        lemma_around(row.cells, col + n - 1);
        lemma_around(row.cells, col + n - 2);
        lemma_around(row.cells, col + n);
        lemma_around(row.cells, col - 1);
        assert(before == cells_left(row.cells, col, n - 1));
        assert(after =~= cells_left(row.cells, col, n));
    } else {
        assert(after =~= cells_left(row.cells, col, n));
    }
}

/// Deleting characters (`CSI n P`) takes cells away from the cursor on: the rest of the row
/// moves left, and new cells come in at its end. A wide character that is only partly taken
/// away leaves nothing behind. Nothing else changes.
pub proof fn law_characters_are_deleted(screen: ScreenModel, params: Seq<Seq<u16>>)
    requires
        screen.wf(),
        screen.whole(),
    ensures
        ({
            let asked_for = asked(params, 0, 1);
            let after = after_csi(screen, params, 'P');
            let (old_grid, new_grid) = (shown_grid(screen), shown_grid(after));
            let row = old_grid.pos.row as int;
            let col = old_grid.pos.col as int;
            let cols = old_grid.size.cols as int;
            let (a, b) = (old_grid.rows[row].cells, new_grid.rows[row].cells);
            let n = if asked_for < cols - col { asked_for } else { cols - col };
            &&& only_the_grid_changed(screen, after)
            &&& only_rows_changed(old_grid, new_grid)
            &&& forall|i: int|
                0 <= i < old_grid.rows.len() && i != row ==> #[trigger] new_grid.rows[i]
                    == old_grid.rows[i]
            &&& !new_grid.rows[row].wrapped
            &&& b.len() == cols
            &&& forall|j: int|
                0 <= j < col ==> if n > 0 && j + 1 == col && a[col].continuation {
                    lost_its_half(a[j], #[trigger] b[j])
                } else {
                    b[j] == a[j]
                }
            &&& forall|j: int|
                col <= j && j + n < cols ==> if n > 0 && j == col && a[j + n].continuation {
                    lost_its_half(a[j + n], #[trigger] b[j])
                } else {
                    b[j] == a[j + n]
                }
            &&& forall|j: int|
                cols - n <= j < cols ==> shows_nothing(#[trigger] b[j]) && attrs_are_default(
                    b[j].attrs,
                )
        }),
{
    let grid = shown_grid(screen);
    let n = min_int(asked(params, 0, 1), grid.size.cols - grid.pos.col);
    assert(whole(grid.current_row().cells));
    lemma_removed(grid.current_row(), grid.pos.col as int, n);
    let after = grid.cells_deleted(asked(params, 0, 1));
    assert(screen.parted().csi_plain(params, 'P') == Some(screen.parted().with_active(after))) by {
        reveal(ScreenModel::csi_plain);
    }
    lemma_grid_is(screen, params, 'P', after);
    let a = grid.current_row().cells;
    let left = cells_left(a, grid.pos.col as int, n);
    let b = after.rows[grid.pos.row as int].cells;
    assert forall|j: int| 0 <= j < left.len() implies #[trigger] b[j] == left[j] by {}
}

/// Whether new cells came in at a column of a row, and the rest moved right as far as the
/// row goes.
pub open spec fn cells_are_inserted(
    a: Seq<CellModel>,
    b: Seq<CellModel>,
    col: int,
    n: int,
) -> bool {
    let cols = a.len() as int;
    &&& b.len() == cols
    &&& forall|j: int| 0 <= j < col && j < cols - 1 ==> #[trigger] b[j] == a[j]
    &&& forall|j: int|
        col <= j < col + n && j < cols ==> (#[trigger] b[j]).text.len() == 0 && !b[j].wide
            && attrs_are_default(b[j].attrs) && b[j].continuation == (j == col
            && a[col].continuation)
    &&& forall|j: int| col + n <= j < cols - 1 ==> moved_right(a, #[trigger] b[j], col, j - n)
    &&& col + n < cols && !a[cols - 1 - n].wide ==> moved_right(a, b[cols - 1], col, cols - 1 - n)
    &&& col + n < cols && a[cols - 1 - n].wide ==> lost_its_half(a[cols - 1 - n], b[cols - 1])
}

/// Whether a cell is one that was at another column: a second half that the new cells
/// divide from its first one is blank.
pub open spec fn moved_right(a: Seq<CellModel>, cell: CellModel, col: int, from: int) -> bool {
    &&& cell.text == a[from].text
    &&& cell.wide == a[from].wide
    &&& cell.attrs == a[from].attrs
    &&& cell.continuation == (a[from].continuation && from != col)
}

/// Inserting characters (`CSI n @`) puts new cells at the cursor: the rest of the row moves
/// right, and what goes over the end of the row is lost, with the other half of a wide
/// character that is cut there. A wide character that the cursor divides is spread around
/// the new cells. Nothing else changes.
pub proof fn law_characters_are_inserted(screen: ScreenModel, params: Seq<Seq<u16>>)
    requires
        screen.wf(),
        screen.whole(),
    ensures
        ({
            let n = asked(params, 0, 1);
            let after = after_csi(screen, params, '@');
            let (old_grid, new_grid) = (shown_grid(screen), shown_grid(after));
            let row = old_grid.pos.row as int;
            let col = old_grid.pos.col as int;
            let cols = old_grid.size.cols as int;
            let (a, b) = (old_grid.rows[row].cells, new_grid.rows[row].cells);
            &&& only_the_grid_changed(screen, after)
            &&& only_rows_changed(old_grid, new_grid)
            &&& forall|i: int|
                0 <= i < old_grid.rows.len() && i != row ==> #[trigger] new_grid.rows[i]
                    == old_grid.rows[i]
            &&& !new_grid.rows[row].wrapped
            &&& cells_are_inserted(a, b, col, n)
        }),
{
    let grid = shown_grid(screen);
    let n = asked(params, 0, 1);
    assert(whole(grid.current_row().cells));
    let after = grid.cells_inserted(n);
    assert(screen.parted().csi_plain(params, '@') == Some(screen.parted().with_active(after))) by {
        reveal(ScreenModel::csi_plain);
    }
    lemma_grid_is(screen, params, '@', after);
    lemma_inserted(grid, n);
    lemma_cut_row(
        grid.current_row().cells,
        after.rows[grid.pos.row as int].cells,
        grid.pos.col as int,
        n,
    );
}

proof fn lemma_cut_row(a: Seq<CellModel>, b: Seq<CellModel>, col: int, n: int)
    requires
        0 <= col <= a.len(),
        0 < a.len(),
        0 < n,
        ({
            let all = cells_with_new(a, col, n);
            let cols = a.len() as int;
            b == all.take(cols).update(
                cols - 1,
                if all[cols - 1].wide {
                    CellModel::cleared(all[cols - 1].attrs)
                } else {
                    all[cols - 1]
                },
            )
        }),
    ensures
        cells_are_inserted(a, b, col, n),
{
    let all = cells_with_new(a, col, n);
    let cols = a.len() as int;
    assert forall|j: int| 0 <= j < cols - 1 implies #[trigger] b[j] == all[j] by {}
    assert forall|j: int| col + n <= j < cols - 1 implies moved_right(a, #[trigger] b[j], col, j - n) by {
        assert(b[j] == all[j]);
    }
}

/// The cells of a row with new ones among them, before the row is cut.
spec fn cells_with_new(cells: Seq<CellModel>, col: int, n: int) -> Seq<CellModel> {
    let divides = col < cells.len() && cells[col].continuation;
    Seq::new(
        (cells.len() + n) as nat,
        |j: int|
            if j < col {
                cells[j]
            } else if j < col + n {
                CellModel { continuation: divides && j == col, ..CellModel::blank() }
            } else {
                CellModel {
                    continuation: cells[j - n].continuation && j - n != col,
                    ..cells[j - n]
                }
            },
    )
}

#[verifier::spinoff_prover]
proof fn lemma_inserted(grid: GridModel, n: int)
    requires
        grid.wf(),
        grid.allocated(),
        whole(grid.current_row().cells),
        n > 0,
    ensures
        ({
            let all = cells_with_new(grid.current_row().cells, grid.pos.col as int, n);
            let after = grid.cells_inserted(n);
            let cols = grid.size.cols as int;
            let row = after.rows[grid.pos.row as int];
            &&& only_rows_changed(grid, after)
            &&& forall|i: int|
                0 <= i < grid.rows.len() && i != grid.pos.row ==> #[trigger] after.rows[i]
                    == grid.rows[i]
            &&& !row.wrapped
            &&& row.cells == all.take(cols).update(
                cols - 1,
                if all[cols - 1].wide {
                    CellModel::cleared(all[cols - 1].attrs)
                } else {
                    all[cols - 1]
                },
            )
        }),
{
    let cells = grid.current_row().cells;
    let col = grid.pos.col as int;
    let cols = grid.size.cols as int;
    let divides = col < grid.size.cols && cells[col].continuation;
    let added = Seq::new(
        n as nat,
        |i: int| CellModel { continuation: divides && i == 0, ..CellModel::blank() },
    );
    let rest = cells.subrange(col, cells.len() as int);
    let rest = if divides && n > 0 {
        rest.update(0, CellModel { continuation: false, ..rest[0] })
    } else {
        rest
    };
    let all = cells_with_new(cells, col, n);
    assert(cells.subrange(0, col) + added + rest =~= all);
    let row = grid.cells_inserted(n).rows[grid.pos.row as int];
    assert(row.cells =~= all.take(cols).update(
        cols - 1,
        if all[cols - 1].wide {
            CellModel::cleared(all[cols - 1].attrs)
        } else {
            all[cols - 1]
        },
    ));
}

// Typing.

/// A screen after a character.
pub open spec fn after_print(screen: ScreenModel, c: char) -> ScreenModel {
    screen.performed(EventModel::Print(c), 0).screen
}

/// The column of the cell before the cursor: the first one of a wide character.
pub open spec fn column_before(grid: GridModel) -> int {
    let cells = grid.rows[grid.pos.row as int].cells;
    let col = grid.pos.col - 1;
    if col > 0 && cells[col].continuation {
        col - 1
    } else {
        col
    }
}

/// Whether a character joins the text before the cursor: that was typed just before it, the
/// character belongs to its last cluster, and there is room for it.
pub open spec fn joins_text(screen: ScreenModel, c: char) -> bool {
    let grid = shown_grid(screen);
    let cell = grid.rows[grid.pos.row as int].cells[column_before(grid)];
    screen.joins && grid.pos.col > 0 && cell.text.len() > 0 && !stands_apart(cell.text, c)
        && cell.has_room(c)
}

/// Whether a character was drawn at a column of a row: the cell shows it, and so does the
/// next one of a wide character. Wide characters of which a half is drawn over are gone,
/// and every other cell stays.
pub open spec fn drawn_at(
    a: Seq<CellModel>,
    b: Seq<CellModel>,
    col: int,
    c: char,
    wide: bool,
    attrs: AttrsModel,
) -> bool {
    &&& b.len() == a.len()
    &&& b[col].text == seq![c]
    &&& b[col].wide == wide
    &&& !b[col].continuation
    &&& b[col].attrs == attrs
    &&& wide ==> b[col + 1].continuation && b[col + 1].text.len() == 0 && !b[col + 1].wide
    &&& forall|j: int|
        0 <= j < a.len() && j != col && !(wide && j == col + 1) ==> if j + 1 == col
            && a[col].continuation || wide && j == col + 2 && a[col + 1].wide {
            is_erased(#[trigger] b[j], attrs)
        } else if !wide && j == col + 1 && a[col].wide {
            b[j].text == seq![' '] && !b[j].wide && !b[j].continuation && b[j].attrs == attrs
        } else {
            b[j] == a[j]
        }
}

proof fn lemma_printed(screen: ScreenModel, c: char)
    requires
        char_columns(c) is Some,
        c != '\u{fffd}',
    ensures
        ({
            let after = after_print(screen, c);
            &&& only_the_grid_changed(screen, after)
            &&& shown_grid(after) == shown_grid(screen).typed(
                c,
                char_columns(c)->0 as int,
                screen.attrs,
                screen.joins,
            )
        }),
{
    reveal(ScreenModel::performed);
}

proof fn lemma_drawn_at(row: RowModel, col: int, c: char, wide: bool, attrs: AttrsModel)
    requires
        whole(row.cells),
        0 <= col < row.cells.len(),
        wide ==> col + 1 < row.cells.len(),
    ensures
        drawn_at(row.cells, row_drawn(row, col, c, wide, attrs).cells, col, c, wide, attrs),
{
    lemma_around(row.cells, col);
    lemma_around(row.cells, col + 1);
    lemma_around(row.cells, col - 1);
}

/// A character that fits on the row of the cursor is drawn there with the attributes of new
/// text, across as many columns as it is wide, and the cursor goes behind it. Nothing else
/// changes.
pub proof fn law_characters_are_drawn(screen: ScreenModel, c: char)
    requires
        screen.wf(),
        screen.whole(),
        c != '\u{fffd}',
        char_columns(c) matches Some(columns) && 1 <= columns && shown_grid(screen).pos.col + columns
            <= shown_grid(screen).size.cols,
        !joins_text(screen, c),
    ensures
        ({
            let wide = char_columns(c)->0 > 1;
            let after = after_print(screen, c);
            let (old_grid, new_grid) = (shown_grid(screen), shown_grid(after));
            let row = old_grid.pos.row as int;
            let col = old_grid.pos.col as int;
            &&& only_the_grid_changed(screen, after)
            &&& new_grid == (GridModel { rows: new_grid.rows, pos: new_grid.pos, ..old_grid })
            &&& new_grid.pos.row == row
            &&& new_grid.pos.col == col + (if wide { 2int } else { 1int })
            &&& new_grid.rows.len() == old_grid.rows.len()
            &&& forall|i: int|
                0 <= i < old_grid.rows.len() && i != row ==> #[trigger] new_grid.rows[i]
                    == old_grid.rows[i]
            &&& drawn_at(
                old_grid.rows[row].cells,
                new_grid.rows[row].cells,
                col,
                c,
                wide,
                screen.attrs,
            )
            &&& new_grid.rows[row].placeholder == (old_grid.rows[row].placeholder || c == '\u{10EEEE}')
        }),
{
    lemma_printed(screen, c);
    let grid = shown_grid(screen);
    let row = grid.current_row();
    assert(whole(row.cells));
    let columns = char_columns(c)->0 as int;
    if grid.pos.col > 0 {
        lemma_around(row.cells, grid.pos.col - 1);
        assert(owner_col(row.cells, grid.pos.col - 1) == column_before(grid));
    }
    lemma_drawn_at(row, grid.pos.col as int, c, columns > 1, screen.attrs);
}

/// A line feed keeps the rows of a grid in number, and goes on below the row that it left.
proof fn lemma_one_down(grid: GridModel)
    requires
        grid.wf(),
        grid.allocated(),
    ensures
        ({
            let (moved, scrolled) = grid.row_inc_scroll(1);
            let left = max_int(grid.pos.row - scrolled, 0);
            &&& moved.pos.col == grid.pos.col
            &&& moved.pos.row < moved.rows.len()
            &&& moved.rows.len() == grid.rows.len()
            &&& moved.size == grid.size
            &&& 0 <= left < moved.rows.len()
            &&& grid.in_scroll_region() && grid.scroll_top < grid.scroll_bottom ==> left + 1
                == moved.pos.row
        }),
{
    let (moved, lines) = grid.row_down(1).clamp_bottom(grid.in_scroll_region());
    if grid.in_scroll_region() {
        assert(0 <= lines <= 1);
        assert(moved.scrolled_up_by(0) == moved);
        if lines == 1 {
            assert(moved.scrolled_up(1) == moved.scrolled_up_by(0).scrolled_up_once());
        } else {
            assert(moved.scrolled_up(0) == moved.scrolled_up_by(0));
        }
    }
}

/// A character that does not fit on the row of the cursor goes to the start of the next one:
/// the screen shows what it would after a carriage return and a line feed.
#[verifier::spinoff_prover]
#[verifier::rlimit(60)]
pub proof fn law_text_goes_on_below(screen: ScreenModel, c: char)
    requires
        screen.wf(),
        screen.whole(),
        c != '\u{fffd}',
        char_columns(c) matches Some(columns) && 1 <= columns <= shown_grid(screen).size.cols
            && shown_grid(screen).pos.col + columns > shown_grid(screen).size.cols,
        !joins_text(screen, c),
    ensures
        ({
            let below = after_control(after_control(screen, 13), 10);
            let (old_grid, new_grid) = (shown_grid(screen), shown_grid(after_print(screen, c)));
            let other = shown_grid(after_print(below, c));
            let last = old_grid.rows[old_grid.pos.row as int].cells[old_grid.size.cols - 1];
            &&& only_the_grid_changed(screen, after_print(screen, c))
            &&& new_grid == (GridModel { rows: new_grid.rows, ..other })
            &&& new_grid.rows.len() == other.rows.len()
            &&& forall|i: int|
                0 <= i < other.rows.len() ==> (#[trigger] new_grid.rows[i]).cells
                    == other.rows[i].cells
            // The row above wraps where text ends it.
            &&& old_grid.scroll_top <= old_grid.pos.row <= old_grid.scroll_bottom
                && old_grid.scroll_top < old_grid.scroll_bottom ==> new_grid.pos.row > 0
                && new_grid.rows[new_grid.pos.row - 1].wrapped == (last.text.len() > 0
                || last.continuation)
        }),
{
    lemma_printed(screen, c);
    let grid = shown_grid(screen);
    let columns = char_columns(c)->0 as int;
    let returned = after_control(screen, 13);
    let below = after_control(returned, 10);
    let start = grid.at(grid.pos.row as int, 0);
    assert(shown_grid(returned) == start && returned.attrs == screen.attrs) by {
        reveal(ScreenModel::performed);
    }
    let (moved, scrolled) = start.row_inc_scroll(1);
    assert(shown_grid(below) == moved && below.attrs == screen.attrs && !below.joins) by {
        reveal(ScreenModel::performed);
    }
    lemma_printed(below, c);
    lemma_one_down(start);
    if grid.pos.col > 0 {
        lemma_around(grid.current_row().cells, grid.pos.col - 1);
        assert(owner_col(grid.current_row().cells, grid.pos.col - 1) == column_before(grid));
    }
    let last = grid.current_row().cells[grid.size.cols - 1];
    let wrap = grid.pos.col > grid.size.cols - columns && (last.text.len() > 0 || last.continuation);
    lemma_col_wrap(grid, columns, wrap);
    let ready = grid.col_wrap(columns, wrap);
    let left = max_int(grid.pos.row - scrolled, 0);
    assert(ready == moved.with_row(
        left,
        moved.rows[left].with_wrap(wrap && left + 1 == moved.pos.row),
    ));
    assert(grid.typed(c, columns, screen.attrs, screen.joins) == grid.drawn(
        c,
        columns,
        screen.attrs,
    ));
    assert(moved.typed(c, columns, screen.attrs, false) == moved.drawn(c, columns, screen.attrs));
    assert(moved.pos.col == 0);
    assert(ready.current_row().cells == moved.current_row().cells);
    assert(ready.pos == moved.pos);
    assert(row_drawn(ready.current_row(), 0, c, columns > 1, screen.attrs).cells == row_drawn(
        moved.current_row(),
        0,
        c,
        columns > 1,
        screen.attrs,
    ).cells);
    if grid.in_scroll_region() && grid.scroll_top < grid.scroll_bottom {
        assert(left + 1 == moved.pos.row);
    }
}

/// Whether a character was added to the text of a cell, a space standing for no text, and
/// at most the cell behind it and the one behind that changed with it.
pub open spec fn added_to(a: Seq<CellModel>, b: Seq<CellModel>, col: int, c: char) -> bool {
    &&& b.len() == a.len()
    &&& b[col].text == (if a[col].text.len() == 0 { seq![' '] } else { a[col].text }).push(c)
    &&& b[col].attrs == a[col].attrs
    &&& b[col].continuation == a[col].continuation
    &&& col + 1 < a.len() ==> b[col].wide == (text_width(b[col].text) > 1)
    &&& forall|j: int|
        0 <= j < a.len() && (j < col || j > col + 2) ==> #[trigger] b[j] == a[j]
    &&& b[col].wide == a[col].wide ==> forall|j: int|
        0 <= j < a.len() && j != col ==> #[trigger] b[j] == a[j]
}

/// A mark, which takes no column of its own, or a character that joins the text before it,
/// is added to the cell before the cursor, if there is room. At the start of a row that the
/// row above wraps into, a mark is added to the last character of that row. The cell is then
/// as wide as its text, and the cursor stays behind it. Nothing else changes.
pub proof fn law_marks_join_the_text(screen: ScreenModel, c: char)
    requires
        screen.wf(),
        screen.whole(),
        c != '\u{fffd}',
        char_columns(c) matches Some(columns) && columns <= shown_grid(screen).size.cols,
        char_columns(c) == Some(0usize) || joins_text(screen, c),
        shown_grid(screen).pos.col > 0,
    ensures
        ({
            let after = after_print(screen, c);
            let (old_grid, new_grid) = (shown_grid(screen), shown_grid(after));
            let row = old_grid.pos.row as int;
            let col = column_before(old_grid);
            let (a, b) = (old_grid.rows[row].cells, new_grid.rows[row].cells);
            &&& only_the_grid_changed(screen, after)
            &&& new_grid == (GridModel { rows: new_grid.rows, pos: new_grid.pos, ..old_grid })
            &&& new_grid.rows.len() == old_grid.rows.len()
            &&& forall|i: int|
                0 <= i < old_grid.rows.len() && i != row ==> #[trigger] new_grid.rows[i]
                    == old_grid.rows[i]
            &&& a[col].has_room(c) ==> added_to(a, b, col, c)
            &&& !a[col].has_room(c) ==> b == a
            &&& new_grid.pos.row == row
            &&& old_grid.pos.col == col + (if a[col].wide { 2int } else { 1int })
                ==> new_grid.pos.col == col + (if b[col].wide { 2int } else { 1int })
        }),
{
    lemma_printed(screen, c);
    let grid = shown_grid(screen);
    let row = grid.current_row();
    assert(whole(row.cells));
    lemma_around(row.cells, grid.pos.col - 1);
    lemma_around(row.cells, column_before(grid));
    lemma_around(row.cells, column_before(grid) + 1);
    assert(owner_col(row.cells, grid.pos.col - 1) == column_before(grid));
    let at = Pos { row: grid.pos.row, col: column_before(grid) as u16 };
    let wide = text_width(grid.joined_text(at, c)) > 1;
    assert(grid.typed(c, char_columns(c)->0 as int, screen.attrs, screen.joins) == grid.joined(
        at,
        c,
        wide,
        screen.attrs,
    ));
    lemma_added(row, column_before(grid), c, wide, screen.attrs);
}

proof fn lemma_added(row: RowModel, col: int, c: char, wide: bool, attrs: AttrsModel)
    requires
        whole(row.cells),
        0 <= col < row.cells.len(),
        !row.cells[col].continuation,
        row.cells[col].has_room(c) ==> wide == (text_width(row.cells[col].appended(c).text) > 1),
    ensures
        row.cells[col].has_room(c) ==> added_to(
            row.cells,
            row_joined(row, col, c, wide, attrs).cells,
            col,
            c,
        ),
        !row.cells[col].has_room(c) ==> row_joined(row, col, c, wide, attrs).cells == row.cells,
{
    lemma_around(row.cells, col);
    lemma_around(row.cells, col + 1);
}

/// A mark at the start of a row belongs to the last character of the row that wraps into it,
/// and to nothing where none does.
pub proof fn law_marks_reach_over_wraps(screen: ScreenModel, c: char)
    requires
        screen.wf(),
        screen.whole(),
        c != '\u{fffd}',
        char_columns(c) == Some(0usize),
        shown_grid(screen).pos.col == 0,
    ensures
        ({
            let after = after_print(screen, c);
            let (old_grid, new_grid) = (shown_grid(screen), shown_grid(after));
            let row = old_grid.pos.row - 1;
            let a = old_grid.rows[row].cells;
            let b = new_grid.rows[row].cells;
            let cols = old_grid.size.cols as int;
            let col = if a[cols - 1].continuation { cols - 2 } else { cols - 1 };
            &&& only_the_grid_changed(screen, after)
            &&& row < 0 || !old_grid.rows[row].wrapped ==> new_grid == old_grid
            &&& row >= 0 && old_grid.rows[row].wrapped ==> {
                &&& only_rows_changed(old_grid, new_grid)
                &&& a[col].has_room(c) ==> added_to(a, b, col, c)
                &&& forall|i: int|
                    0 <= i < old_grid.rows.len() && i != row ==> #[trigger] new_grid.rows[i]
                        == old_grid.rows[i]
            }
        }),
{
    lemma_printed(screen, c);
    let grid = shown_grid(screen);
    if grid.pos.row > 0 && grid.rows[grid.pos.row - 1].wrapped {
        let above = grid.rows[grid.pos.row - 1];
        assert(whole(above.cells));
        let cols = grid.size.cols as int;
        lemma_around(above.cells, cols - 1);
        lemma_around(above.cells, cols - 2);
        let col = if above.cells[cols - 1].continuation { cols - 2 } else { cols - 1 };
        let at = Pos { row: (grid.pos.row - 1) as u16, col: col as u16 };
        assert(grid.mark_target() == Some(at));
        let wide = text_width(grid.joined_text(at, c)) > 1;
        lemma_added(above, col, c, wide, screen.attrs);
    }
}

/// Control characters, the replacement character and characters that are wider than the
/// screen are not drawn.
pub proof fn law_some_characters_are_not_drawn(screen: ScreenModel, c: char)
    requires
        screen.wf(),
        c == '\u{fffd}' || char_columns(c) is None && c < '\u{100}' || (char_columns(c) matches Some(
            columns,
        ) && columns > shown_grid(screen).size.cols),
    ensures
        only_the_grid_changed(screen, after_print(screen, c)),
        shown_grid(after_print(screen, c)) == shown_grid(screen),
{
    reveal(ScreenModel::performed);
}

} // verus!
