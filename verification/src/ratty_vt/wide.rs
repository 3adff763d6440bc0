//! The two halves of a wide character stay together.

use crate::ratty_vt::attrs::AttrsModel;
use crate::ratty_vt::cell::CellModel;
use crate::ratty_vt::grid_model::{
    any_placeholder, at_least_one, blank_tail_dropped, blanks_trimmed, chunked, cursor_in_line,
    flattened, lemma_chunked, lemma_col_wrap, lemma_line_end, lemma_reflow_lines, line_end, line_rows,
    max_int, min_int, newest, reflow_line, reflow_lines, row_cells_removed, ChunkModel, GridModel,
    ReflowModel,
};
use crate::ratty_vt::event::EventModel;
use crate::ratty_vt::grid::{Pos, Size};
use crate::ratty_vt::perform::{modes_run, param_or};
use crate::ratty_vt::row::{other_half_cleared, RowModel};
use crate::ratty_vt::screen_model::{
    columns_of, owner_col, row_continued, row_drawn, row_joined, ScreenModel,
};
use crate::ratty_vt::unicode::{char_columns, text_width};
use vstd::prelude::*;

verus! {

/// Whether a column holds no half of a wide character whose other half is not beside
/// it.
pub open spec fn whole_at(cells: Seq<CellModel>, i: int) -> bool {
    &&& cells[i].wide ==> i + 1 < cells.len() && cells[i + 1].continuation
        && !cells[i].continuation
    &&& cells[i].continuation ==> 0 < i && cells[i - 1].wide
}

/// Whether every first half of a wide character has its second half behind it, and
/// every second half its first half before it.
#[verifier::opaque]
pub open spec fn whole(cells: Seq<CellModel>) -> bool {
    forall|i: int| 0 <= i < cells.len() ==> #[trigger] whole_at(cells, i)
}

/// What holds around a column of cells without split characters.
proof fn lemma_whole_around(cells: Seq<CellModel>, i: int)
    requires
        whole(cells),
    ensures
        0 <= i < cells.len() ==> whole_at(cells, i),
        0 <= i - 1 < cells.len() ==> whole_at(cells, i - 1),
        0 <= i + 1 < cells.len() ==> whole_at(cells, i + 1),
{
    reveal(whole);
    assert(0 <= i < cells.len() ==> whole_at(cells, i));
    assert(0 <= i - 1 < cells.len() ==> whole_at(cells, i - 1));
    assert(0 <= i + 1 < cells.len() ==> whole_at(cells, i + 1));
}

pub open spec fn rows_whole(rows: Seq<RowModel>) -> bool {
    forall|i: int| 0 <= i < rows.len() ==> whole((#[trigger] rows[i]).cells)
}

impl GridModel {
    /// Whether no wide character of the grid or its scrollback is split.
    pub open spec fn whole(self) -> bool {
        rows_whole(self.rows) && rows_whole(self.scrollback)
    }
}

impl ScreenModel {
    /// Whether no wide character of the screen is split.
    pub open spec fn whole(self) -> bool {
        self.grid.whole() && self.alternate_grid.whole()
    }
}

proof fn lemma_narrow_is_whole(cells: Seq<CellModel>)
    requires
        forall|i: int|
            0 <= i < cells.len() ==> !(#[trigger] cells[i]).wide && !cells[i].continuation,
    ensures
        whole(cells),
{
    reveal(whole);
    assert forall|i: int| 0 <= i < cells.len() implies #[trigger] whole_at(cells, i) by {}
}

proof fn lemma_blank_row(cols: nat)
    ensures
        whole(RowModel::blank(cols).cells),
{
    lemma_narrow_is_whole(RowModel::blank(cols).cells);
}

proof fn lemma_cleared_row(row: RowModel, attrs: AttrsModel)
    ensures
        whole(row.cleared(attrs).cells),
{
    lemma_narrow_is_whole(row.cleared(attrs).cells);
}

/// Putting a narrow cell in the place of a half, once the other half is gone.
proof fn lemma_other_half_cleared(cells: Seq<CellModel>, col: int, cell: CellModel)
    requires
        whole(cells),
        0 <= col < cells.len(),
        !cell.wide,
        !cell.continuation,
    ensures
        whole(other_half_cleared(cells, col).update(col, cell)),
        other_half_cleared(cells, col).len() == cells.len(),
{
    reveal(whole);
    let after = other_half_cleared(cells, col).update(col, cell);
    lemma_whole_around(cells, col);
    assert forall|i: int| 0 <= i < after.len() implies #[trigger] whole_at(after, i) by {
        lemma_whole_around(cells, i);
    }
}

/// Drawing a narrow character.
proof fn lemma_drawn_narrow(row: RowModel, col: int, c: char, attrs: AttrsModel)
    requires
        whole(row.cells),
        0 <= col < row.cells.len(),
    ensures
        whole(row_drawn(row, col, c, false, attrs).cells),
        row_drawn(row, col, c, false, attrs).cells.len() == row.cells.len(),
{
    reveal(whole);
    let after = row_drawn(row, col, c, false, attrs).cells;
    lemma_whole_around(row.cells, col);
    assert forall|i: int| 0 <= i < after.len() implies #[trigger] whole_at(after, i) by {
        lemma_whole_around(row.cells, i);
    }
}

/// Making a narrow character wide.
proof fn lemma_widened(row: RowModel, col: int, cell: CellModel, attrs: AttrsModel)
    requires
        whole(row.cells),
        0 <= col,
        col + 1 < row.cells.len(),
        !row.cells[col].wide,
        !row.cells[col].continuation,
        cell.wide,
        !cell.continuation,
    ensures
        whole(row_continued(row.with_cell(col, cell), col + 1, attrs).cells),
        row_continued(row.with_cell(col, cell), col + 1, attrs).cells.len() == row.cells.len(),
{
    reveal(whole);
    let after = row_continued(row.with_cell(col, cell), col + 1, attrs).cells;
    lemma_whole_around(row.cells, col);
    lemma_whole_around(row.cells, col + 1);
    assert forall|i: int| 0 <= i < after.len() implies #[trigger] whole_at(after, i) by {
        lemma_whole_around(row.cells, i);
    }
}

proof fn lemma_drawn(row: RowModel, col: int, c: char, wide: bool, attrs: AttrsModel)
    requires
        whole(row.cells),
        0 <= col < row.cells.len(),
        wide ==> col + 1 < row.cells.len(),
    ensures
        whole(row_drawn(row, col, c, wide, attrs).cells),
        row_drawn(row, col, c, wide, attrs).cells.len() == row.cells.len(),
{
    lemma_drawn_narrow(row, col, c, attrs);
    if wide {
        let narrow = row_drawn(row, col, c, false, attrs);
        let glyph = CellModel::glyph(c, true, attrs);
        lemma_widened(narrow, col, glyph, attrs);
        assert(narrow.with_cell(col, glyph).cells =~= {
            let cells = if row.cells[col].continuation && col > 0 {
                row.cells.update(col - 1, CellModel::cleared(attrs))
            } else {
                row.cells
            };
            let cells = if cells[col].wide && col + 1 < row.cells.len() {
                cells.update(col + 1, CellModel::glyph(' ', false, attrs))
            } else {
                cells
            };
            cells.update(col, glyph)
        });
    }
}

proof fn lemma_joined(row: RowModel, col: int, c: char, wide: bool, attrs: AttrsModel)
    requires
        whole(row.cells),
        0 <= col < row.cells.len(),
        !row.cells[col].continuation,
    ensures
        whole(row_joined(row, col, c, wide, attrs).cells),
        row_joined(row, col, c, wide, attrs).cells.len() == row.cells.len(),
{
    let cell = row.cells[col];
    if cell.has_room(c) && wide && !cell.wide && col + 1 < row.cells.len() {
        let glyph = CellModel { wide: true, ..cell.appended(c) };
        lemma_widened(row, col, glyph, attrs);
        assert(row.with_cell(col, cell.appended(c)).with_cell(col, glyph).cells =~= row.with_cell(
            col,
            glyph,
        ).cells);
    } else {
        reveal(whole);
        let after = row_joined(row, col, c, wide, attrs).cells;
        lemma_whole_around(row.cells, col);
        assert forall|i: int| 0 <= i < after.len() implies #[trigger] whole_at(after, i) by {
            lemma_whole_around(row.cells, i);
        }
    }
}

proof fn lemma_erased(row: RowModel, i: int, attrs: AttrsModel)
    requires
        whole(row.cells),
        0 <= i < row.cells.len(),
    ensures
        whole(row.erased(i, attrs).cells),
        row.erased(i, attrs).cells.len() == row.cells.len(),
{
    lemma_other_half_cleared(row.cells, i, CellModel::cleared(attrs));
}

proof fn lemma_erased_range(row: RowModel, from: int, to: int, attrs: AttrsModel)
    requires
        whole(row.cells),
        0 <= from,
        to <= row.cells.len(),
    ensures
        whole(row.erased_range(from, to, attrs).cells),
        row.erased_range(from, to, attrs).cells.len() == row.cells.len(),
    decreases to - from,
{
    if from < to {
        lemma_erased_range(row, from, to - 1, attrs);
        lemma_erased(row.erased_range(from, to - 1, attrs), to - 1, attrs);
    }
}

proof fn lemma_removed(row: RowModel, i: int)
    requires
        whole(row.cells),
        0 <= i < row.cells.len(),
    ensures
        whole(row.removed(i).cells),
        row.removed(i).cells.len() == row.cells.len() - 1,
{
    let cleared = other_half_cleared(row.cells, i).update(i, CellModel::blank());
    lemma_other_half_cleared(row.cells, i, CellModel::blank());
    let after = row.removed(i).cells;
    assert(after =~= cleared.remove(i));
    reveal(whole);
    assert forall|k: int| 0 <= k < after.len() implies #[trigger] whole_at(after, k) by {
        lemma_whole_around(
            cleared,
            if k < i {
                k
            } else {
                k + 1
            },
        );
    }
}

proof fn lemma_cells_removed(row: RowModel, col: int, count: int)
    requires
        whole(row.cells),
        0 <= col,
        col + count <= row.cells.len(),
    ensures
        whole(row_cells_removed(row, col, count).cells),
        row_cells_removed(row, col, count).cells.len() == row.cells.len() - max_int(count, 0),
    decreases count,
{
    if count > 0 {
        lemma_cells_removed(row, col, count - 1);
        lemma_removed(row_cells_removed(row, col, count - 1), col);
    }
}

proof fn lemma_filled_up(row: RowModel, len: nat)
    requires
        whole(row.cells),
        row.cells.len() <= len,
    ensures
        whole(row.resized(len, CellModel::blank()).cells),
{
    reveal(whole);
    let after = row.resized(len, CellModel::blank()).cells;
    assert forall|i: int| 0 <= i < after.len() implies #[trigger] whole_at(after, i) by {
        lemma_whole_around(row.cells, i);
    }
}

proof fn lemma_truncated(row: RowModel, len: int)
    requires
        whole(row.cells),
        0 < len <= row.cells.len(),
    ensures
        whole(row.truncated(len).cells),
        row.truncated(len).cells.len() == len,
{
    reveal(whole);
    let after = row.truncated(len).cells;
    assert forall|i: int| 0 <= i < after.len() implies #[trigger] whole_at(after, i) by {
        lemma_whole_around(row.cells, i);
    }
}

proof fn lemma_inserted(grid: GridModel, count: int)
    requires
        grid.wf(),
        grid.allocated(),
        grid.whole(),
        count >= 0,
    ensures
        grid.cells_inserted(count).whole(),
{
    let row = grid.current_row();
    assert(whole(row.cells));
    let col = grid.pos.col as int;
    let divides = col < grid.size.cols && row.cells[col].continuation;
    let added = Seq::new(
        count as nat,
        |i: int| CellModel { continuation: divides && i == 0, ..CellModel::blank() },
    );
    let rest = row.cells.subrange(col, row.cells.len() as int);
    let rest = if divides && count > 0 {
        rest.update(0, CellModel { continuation: false, ..rest[0] })
    } else {
        rest
    };
    let shifted = RowModel { cells: row.cells.subrange(0, col) + added + rest, ..row };
    assert(whole(shifted.cells)) by {
        reveal(whole);
        lemma_whole_around(row.cells, col);
        assert forall|k: int| 0 <= k < shifted.cells.len() implies #[trigger] whole_at(
            shifted.cells,
            k,
        ) by {
            lemma_whole_around(
                row.cells,
                if k < col {
                    k
                } else {
                    k - count
                },
            );
        }
    }
    lemma_truncated(shifted, grid.size.cols as int);
    lemma_with_row(
        grid,
        grid.pos.row as int,
        shifted.truncated(grid.size.cols as int),
    );
}

proof fn lemma_scrolled_up_once(grid: GridModel)
    requires
        grid.whole(),
        grid.scroll_top <= grid.scroll_bottom,
        grid.scroll_bottom < grid.rows.len(),
    ensures
        grid.scrolled_up_once().whole(),
        grid.scrolled_up_once().rows.len() == grid.rows.len(),
{
    lemma_blank_row(grid.size.cols as nat);
    let inserted = grid.rows.insert(grid.scroll_bottom + 1, grid.blank_row());
    assert(rows_whole(inserted)) by {
        assert forall|i: int| 0 <= i < inserted.len() implies whole((#[trigger] inserted[i]).cells) by {
            if i < grid.scroll_bottom + 1 {
                assert(inserted[i] == grid.rows[i]);
            } else if i > grid.scroll_bottom + 1 {
                assert(inserted[i] == grid.rows[i - 1]);
            }
        }
    }
    lemma_rows_removed(inserted, grid.scroll_top as int);
    let first = grid.rows[grid.scroll_top as int];
    assert(whole(first.cells));
    let longer = grid.scrollback.push(first);
    assert(rows_whole(longer));
    lemma_newest(longer, grid.scrollback_len as int);
}

proof fn lemma_rows_removed(rows: Seq<RowModel>, at: int)
    requires
        rows_whole(rows),
        0 <= at < rows.len(),
    ensures
        rows_whole(rows.remove(at)),
{
    let after = rows.remove(at);
    assert forall|i: int| 0 <= i < after.len() implies whole((#[trigger] after[i]).cells) by {
        if i < at {
            assert(after[i] == rows[i]);
        } else {
            assert(after[i] == rows[i + 1]);
        }
    }
}

proof fn lemma_rows_inserted(rows: Seq<RowModel>, at: int, row: RowModel)
    requires
        rows_whole(rows),
        whole(row.cells),
        0 <= at <= rows.len(),
    ensures
        rows_whole(rows.insert(at, row)),
{
    let after = rows.insert(at, row);
    assert forall|i: int| 0 <= i < after.len() implies whole((#[trigger] after[i]).cells) by {
        if i < at {
            assert(after[i] == rows[i]);
        } else if i > at {
            assert(after[i] == rows[i - 1]);
        }
    }
}

proof fn lemma_newest(rows: Seq<RowModel>, n: int)
    requires
        rows_whole(rows),
        0 <= n,
    ensures
        rows_whole(newest(rows, n)),
{
    let after = newest(rows, n);
    assert forall|i: int| 0 <= i < after.len() implies whole((#[trigger] after[i]).cells) by {
        if rows.len() > n {
            assert(after[i] == rows[rows.len() - n + i]);
        }
    }
}

proof fn lemma_scrolled_up_by(grid: GridModel, count: int)
    requires
        grid.whole(),
        grid.scroll_top <= grid.scroll_bottom,
        grid.scroll_bottom < grid.rows.len(),
    ensures
        grid.scrolled_up_by(count).whole(),
        grid.scrolled_up_by(count).rows.len() == grid.rows.len(),
        grid.scrolled_up_by(count).scroll_top == grid.scroll_top,
        grid.scrolled_up_by(count).scroll_bottom == grid.scroll_bottom,
    decreases count,
{
    if count > 0 {
        lemma_scrolled_up_by(grid, count - 1);
        lemma_scrolled_up_once(grid.scrolled_up_by(count - 1));
    }
}

proof fn lemma_lines_inserted(grid: GridModel, at: int, count: int)
    requires
        grid.whole(),
        grid.scroll_bottom < grid.rows.len(),
        0 <= at < grid.rows.len(),
    ensures
        grid.lines_inserted_at(at, count).whole(),
        grid.lines_inserted_at(at, count).rows.len() == grid.rows.len(),
        grid.lines_inserted_at(at, count).scroll_bottom == grid.scroll_bottom,
    decreases count,
{
    if count > 0 {
        lemma_lines_inserted(grid, at, count - 1);
        let before = grid.lines_inserted_at(at, count - 1);
        lemma_blank_row(before.size.cols as nat);
        lemma_rows_removed(before.rows, before.scroll_bottom as int);
        let removed = before.rows.remove(before.scroll_bottom as int);
        lemma_rows_inserted(removed, at, before.blank_row());
        let inserted = removed.insert(at, before.blank_row());
        assert(whole(inserted[before.scroll_bottom as int].cells));
        let after = before.line_inserted(at);
        assert forall|i: int| 0 <= i < after.rows.len() implies whole(
            (#[trigger] after.rows[i]).cells,
        ) by {
            assert(after.rows[i].cells == inserted[i].cells);
        }
    }
}

proof fn lemma_lines_deleted(grid: GridModel, count: int)
    requires
        grid.whole(),
        grid.scroll_bottom < grid.rows.len(),
        grid.pos.row < grid.rows.len(),
    ensures
        grid.lines_deleted_by(count).whole(),
        grid.lines_deleted_by(count).rows.len() == grid.rows.len(),
        grid.lines_deleted_by(count).scroll_bottom == grid.scroll_bottom,
        grid.lines_deleted_by(count).pos == grid.pos,
    decreases count,
{
    if count > 0 {
        lemma_lines_deleted(grid, count - 1);
        let before = grid.lines_deleted_by(count - 1);
        lemma_blank_row(before.size.cols as nat);
        lemma_rows_inserted(before.rows, before.scroll_bottom + 1, before.blank_row());
        lemma_rows_removed(
            before.rows.insert(before.scroll_bottom + 1, before.blank_row()),
            before.pos.row as int,
        );
    }
}

proof fn lemma_with_row(grid: GridModel, i: int, row: RowModel)
    requires
        grid.whole(),
        whole(row.cells),
        0 <= i < grid.rows.len(),
    ensures
        grid.with_row(i, row).whole(),
{
}

proof fn lemma_row_inc_scroll(grid: GridModel, count: int)
    requires
        grid.wf(),
        grid.allocated(),
        grid.whole(),
        count >= 0,
    ensures
        grid.row_inc_scroll(count).0.whole(),
        grid.row_inc_scroll(count).0.rows.len() == grid.rows.len(),
{
    let (moved, lines) = grid.row_down(count).clamp_bottom(grid.in_scroll_region());
    lemma_scrolled_up_by(moved, min_int(lines, moved.size.rows - moved.scroll_top));
}

proof fn lemma_drawn_on_grid(grid: GridModel, c: char, width: int, attrs: AttrsModel)
    requires
        grid.wf(),
        grid.allocated(),
        grid.whole(),
        1 <= width <= grid.size.cols,
    ensures
        grid.drawn(c, width, attrs).whole(),
{
    let last = grid.current_row().cells[grid.size.cols - 1];
    let wrap = grid.pos.col > grid.size.cols - width && (last.text.len() > 0 || last.continuation);
    if grid.pos.col > grid.size.cols - width {
        let start = grid.at(grid.pos.row as int, 0);
        lemma_row_inc_scroll(start, 1);
        let (moved, scrolled) = start.row_inc_scroll(1);
        let left = max_int(grid.pos.row - scrolled, 0);
        assert(whole(moved.rows[left].cells));
        lemma_with_row(moved, left, moved.rows[left].with_wrap(wrap && left + 1 == moved.pos.row));
    }
    lemma_col_wrap(grid, width, wrap);
    let ready = grid.col_wrap(width, wrap);
    assert(ready.whole());
    assert(whole(ready.current_row().cells));
    lemma_drawn(ready.current_row(), ready.pos.col as int, c, width > 1, attrs);
    lemma_with_row(
        ready,
        ready.pos.row as int,
        row_drawn(ready.current_row(), ready.pos.col as int, c, width > 1, attrs),
    );
}

proof fn lemma_joined_on_grid(grid: GridModel, at: Pos, c: char, wide: bool, attrs: AttrsModel)
    requires
        grid.whole(),
        at.row < grid.rows.len(),
        at.col < grid.rows[at.row as int].cells.len(),
        !grid.rows[at.row as int].cells[at.col as int].continuation,
    ensures
        grid.joined(at, c, wide, attrs).whole(),
{
    let before = grid.rows[at.row as int];
    assert(whole(before.cells));
    lemma_joined(before, at.col as int, c, wide, attrs);
}

/// The cell that shows what is at a column is no second half.
proof fn lemma_owner(cells: Seq<CellModel>, col: int)
    requires
        whole(cells),
        0 <= col < cells.len(),
    ensures
        0 <= owner_col(cells, col) <= col,
        !cells[owner_col(cells, col)].continuation,
{
    lemma_whole_around(cells, col);
}

proof fn lemma_typed(grid: GridModel, c: char, width: int, attrs: AttrsModel, joins: bool)
    requires
        grid.wf(),
        grid.allocated(),
        grid.whole(),
        width >= 0,
    ensures
        grid.typed(c, width, attrs, joins).whole(),
{
    let cells = grid.current_row().cells;
    assert(whole(cells));
    if grid.pos.col > 0 {
        lemma_owner(cells, grid.pos.col - 1);
    }
    if width > grid.size.cols {
    } else if width == 0 {
        if let Some(at) = grid.mark_target() {
            if grid.pos.col == 0 {
                let above = grid.rows[grid.pos.row - 1].cells;
                assert(whole(above));
                lemma_whole_around(above, above.len() - 1);
            }
            lemma_joined_on_grid(grid, at, c, text_width(grid.joined_text(at, c)) > 1, attrs);
        }
    } else if joins && grid.extends_cluster(c) {
        let at = Pos { row: grid.pos.row, col: owner_col(cells, grid.pos.col - 1) as u16 };
        lemma_joined_on_grid(grid, at, c, text_width(grid.joined_text(at, c)) > 1, attrs);
    } else {
        lemma_drawn_on_grid(grid, c, width, attrs);
    }
}

proof fn lemma_erased_cols(grid: GridModel, from: int, to: int, attrs: AttrsModel)
    requires
        grid.wf(),
        grid.allocated(),
        grid.whole(),
        0 <= from,
        to <= grid.size.cols,
    ensures
        grid.erased_cols(from, to, attrs).whole(),
{
    assert(whole(grid.current_row().cells));
    lemma_erased_range(grid.current_row(), from, to, attrs);
}

/// Rows of which some were cleared.
proof fn lemma_some_cleared(before: GridModel, after: GridModel, attrs: AttrsModel)
    requires
        before.whole(),
        after.rows.len() == before.rows.len(),
        after.scrollback == before.scrollback,
        forall|i: int|
            0 <= i < after.rows.len() ==> (#[trigger] after.rows[i]) == before.rows[i]
                || after.rows[i] == before.rows[i].cleared(attrs),
    ensures
        after.whole(),
{
    assert forall|i: int| 0 <= i < after.rows.len() implies whole((#[trigger] after.rows[i]).cells) by {
        lemma_cleared_row(before.rows[i], attrs);
        assert(whole(before.rows[i].cells));
    }
}

proof fn lemma_display_erased(screen: ScreenModel, mode: u16)
    requires
        screen.wf(),
        screen.whole(),
    ensures
        screen.display_erased(mode) matches Some(after) ==> after.whole(),
        screen.line_erased(mode) matches Some(after) ==> after.whole(),
{
    reveal(ScreenModel::display_erased);
    reveal(ScreenModel::line_erased);
    let grid = screen.active();
    let attrs = screen.attrs;
    lemma_some_cleared(grid, grid.erased_all(attrs), attrs);
    lemma_cleared_row(grid.current_row(), attrs);
    lemma_erased_cols(grid, grid.pos.col as int, grid.size.cols as int, attrs);
    lemma_erased_cols(grid, 0, min_int(grid.pos.col as int, grid.size.cols - 1) + 1, attrs);
    let below = GridModel {
        rows: Seq::new(
            grid.rows.len(),
            |i: int|
                if i > grid.pos.row {
                    grid.rows[i].cleared(attrs)
                } else {
                    grid.rows[i]
                },
        ),
        ..grid
    };
    lemma_some_cleared(grid, below, attrs);
    lemma_erased_cols(below, below.pos.col as int, below.size.cols as int, attrs);
    let above = GridModel {
        rows: Seq::new(
            grid.rows.len(),
            |i: int|
                if i < grid.pos.row {
                    grid.rows[i].cleared(attrs)
                } else {
                    grid.rows[i]
                },
        ),
        ..grid
    };
    lemma_some_cleared(grid, above, attrs);
    lemma_erased_cols(above, 0, min_int(above.pos.col as int, above.size.cols - 1) + 1, attrs);
}

proof fn lemma_cells_deleted(grid: GridModel, count: int)
    requires
        grid.wf(),
        grid.allocated(),
        grid.whole(),
        count >= 0,
    ensures
        grid.cells_deleted(count).whole(),
{
    assert(whole(grid.current_row().cells));
    let n = min_int(count, grid.size.cols - grid.pos.col);
    lemma_cells_removed(grid.current_row(), grid.pos.col as int, n);
    lemma_filled_up(
        row_cells_removed(grid.current_row(), grid.pos.col as int, n),
        grid.size.cols as nat,
    );
}

/// A grid whose rows are all blank.
proof fn lemma_blank_grid(grid: GridModel)
    requires
        rows_whole(grid.scrollback),
    ensures
        (GridModel { rows: grid.with_rows_allocated().rows, ..grid }).whole() || grid.rows.len() > 0,
        grid.cleared().whole(),
        grid.whole() ==> grid.with_rows_allocated().whole(),
{
    lemma_blank_row(grid.size.cols as nat);
    let allocated = grid.with_rows_allocated();
    assert forall|i: int| 0 <= i < allocated.rows.len() && grid.rows.len() == 0 implies whole(
        (#[trigger] allocated.rows[i]).cells,
    ) by {}
    let cleared = grid.cleared();
    assert forall|i: int| 0 <= i < cleared.rows.len() implies whole(
        (#[trigger] cleared.rows[i]).cells,
    ) by {
        lemma_cleared_row(grid.rows[i], AttrsModel::plain());
    }
}

proof fn lemma_alternate_entered(screen: ScreenModel)
    requires
        screen.whole(),
    ensures
        screen.alternate_entered().whole(),
{
    let left = screen.with_active(screen.active().scrolled_back(0));
    assert(left.whole());
    lemma_blank_grid(left.alternate_grid);
}

proof fn lemma_alternate_opened(screen: ScreenModel)
    requires
        screen.whole(),
    ensures
        screen.alternate_opened().whole(),
{
    let saved = screen.cursor_saved();
    assert(saved.whole());
    lemma_blank_grid(saved.alternate_grid);
    let cleared = ScreenModel { alternate_grid: saved.alternate_grid.cleared(), ..saved };
    assert(cleared.whole());
    lemma_alternate_entered(cleared);
}

/// A screen that differs from another in what is no row.
proof fn lemma_same_rows(before: ScreenModel, after: ScreenModel)
    requires
        before.whole(),
        after.grid.rows == before.grid.rows,
        after.grid.scrollback == before.grid.scrollback,
        after.alternate_grid.rows == before.alternate_grid.rows,
        after.alternate_grid.scrollback == before.alternate_grid.scrollback,
    ensures
        after.whole(),
{
}

proof fn lemma_mode_set(screen: ScreenModel, param: Seq<u16>)
    requires
        screen.whole(),
    ensures
        screen.private_mode_set(param) matches Some(after) ==> after.whole(),
{
    reveal(ScreenModel::private_mode_set);
    if let Some(after) = screen.private_mode_set(param) {
        if param[0] == 47 {
            lemma_alternate_entered(screen);
        } else if param[0] == 1049 {
            lemma_alternate_opened(screen);
        } else {
            lemma_same_rows(screen, after);
        }
    }
}

proof fn lemma_mode_reset(screen: ScreenModel, param: Seq<u16>)
    requires
        screen.whole(),
    ensures
        screen.private_mode_reset(param) matches Some(after) ==> after.whole(),
{
    reveal(ScreenModel::private_mode_reset);
    if let Some(after) = screen.private_mode_reset(param) {
        lemma_same_rows(screen, after);
    }
}

proof fn lemma_modes_run(screen: ScreenModel, params: Seq<Seq<u16>>, i: int, set: bool)
    requires
        screen.whole(),
    ensures
        modes_run(screen, params, i, set).0.whole(),
    decreases params.len() - i,
{
    if 0 <= i < params.len() {
        lemma_mode_set(screen, params[i]);
        lemma_mode_reset(screen, params[i]);
        let changed = if set {
            screen.private_mode_set(params[i])
        } else {
            screen.private_mode_reset(params[i])
        };
        if let Some(next) = changed {
            lemma_modes_run(next, params, i + 1, set);
        }
    }
}

proof fn lemma_csi_plain(screen: ScreenModel, params: Seq<Seq<u16>>, c: char)
    requires
        screen.wf(),
        screen.whole(),
    ensures
        screen.csi_plain(params, c) matches Some(after) ==> after.whole(),
{
    reveal(ScreenModel::csi_plain);
    let grid = screen.active();
    let count = param_or(params, 0, 1) as int;
    if c == '@' {
        lemma_inserted(grid, count);
    } else if c == 'J' || c == 'K' {
        lemma_display_erased(screen, param_or(params, 0, 0));
    } else if c == 'L' {
        lemma_lines_inserted(grid, grid.pos.row as int, count);
    } else if c == 'M' {
        lemma_lines_deleted(grid, min_int(count, grid.size.rows - grid.pos.row));
    } else if c == 'P' {
        lemma_cells_deleted(grid, count);
    } else if c == 'S' {
        lemma_scrolled_up_by(grid, min_int(count, grid.size.rows - grid.scroll_top));
    } else if c == 'T' {
        lemma_lines_inserted(grid, grid.scroll_top as int, count);
    } else if c == 'X' {
        lemma_erased_cols(
            grid,
            grid.pos.col as int,
            min_int(min_int(grid.pos.col + count, u16::MAX as int), grid.size.cols as int),
            screen.attrs,
        );
    }
}

proof fn lemma_executed(screen: ScreenModel, b: u8)
    requires
        screen.wf(),
        screen.whole(),
    ensures
        screen.executed(b).screen.whole(),
{
    if 10 <= b <= 12 {
        lemma_row_inc_scroll(screen.active(), 1);
    } else {
        lemma_same_rows(screen, screen.executed(b).screen);
    }
}

proof fn lemma_escaped(screen: ScreenModel, intermediates: Seq<u8>, b: u8)
    requires
        screen.wf(),
        screen.whole(),
    ensures
        screen.escaped(intermediates, b).screen.whole(),
{
    if intermediates.len() == 0 && b == 'M' as u8 {
        let grid = screen.active();
        let (moved, lines) = grid.row_up(1).clamp_top(grid.in_scroll_region());
        lemma_lines_inserted(
            moved,
            moved.scroll_top as int,
            lines + max_int(1 - grid.pos.row, 0),
        );
    } else if intermediates.len() == 0 && b == 'c' as u8 {
        lemma_fresh(screen.grid.size, screen.grid.scrollback_len);
    } else {
        lemma_same_rows(screen, screen.escaped(intermediates, b).screen);
    }
}

proof fn lemma_controlled(
    screen: ScreenModel,
    params: Seq<Seq<u16>>,
    intermediates: Seq<u8>,
    c: char,
    from: int,
)
    requires
        screen.wf(),
        screen.whole(),
    ensures
        screen.controlled(params, intermediates, c, from).screen.whole(),
{
    reveal(ScreenModel::csi_keyboard);
    if intermediates.len() == 0 {
        if c == 'm' {
            lemma_same_rows(screen, screen.controlled(params, intermediates, c, from).screen);
        } else {
            lemma_csi_plain(screen, params, c);
        }
    } else if intermediates[0] == '?' as u8 && (c == 'h' || c == 'l') {
        lemma_modes_run(screen, params, from, c == 'h');
    } else if intermediates[0] != '?' as u8 {
        lemma_same_rows(screen, screen.controlled(params, intermediates, c, from).screen);
    } else {
        lemma_display_erased(screen, param_or(params, 0, 0));
    }
}

/// Whatever an application sends, no wide character is ever split: each of its
/// halves goes with the other.
pub proof fn law_output_never_splits_a_wide_character(
    screen: ScreenModel,
    event: EventModel,
    from: int,
)
    requires
        screen.wf(),
        screen.whole(),
    ensures
        screen.performed(event, from).screen.whole(),
{
    reveal(ScreenModel::performed);
    let screen = if ScreenModel::goes_on(event) { screen } else { screen.parted() };
    match event {
        EventModel::Print(c) => {
            lemma_typed(
                screen.active(),
                c,
                columns_of(char_columns(c)),
                screen.attrs,
                screen.joins,
            );
        },
        EventModel::Execute(b) => {
            lemma_executed(screen, b);
        },
        EventModel::Esc(intermediates, b) => {
            lemma_escaped(screen, intermediates, b);
        },
        EventModel::Csi(params, intermediates, c) => {
            lemma_controlled(screen, params, intermediates, c, from);
        },
        EventModel::Osc(params) => {
            lemma_same_rows(screen, screen.commanded(params, from).screen);
        },
    }
}

/// Typing keeps a grid in shape.
proof fn lemma_typed_in_place(grid: GridModel, c: char, width: int, attrs: AttrsModel, joins: bool)
    requires
        grid.wf(),
        grid.allocated(),
        grid.whole(),
        width >= 0,
    ensures
        ({
            let after = grid.typed(c, width, attrs, joins);
            &&& after.size == grid.size
            &&& after.pos.row < grid.size.rows
            &&& after.pos.col <= grid.size.cols
        }),
{
    let cells = grid.current_row().cells;
    assert(whole(cells));
    if grid.pos.col > 0 {
        lemma_owner(cells, grid.pos.col - 1);
        lemma_whole_around(cells, grid.pos.col - 1);
    }
    if width > grid.size.cols || width == 0 || (joins && grid.extends_cluster(c)) {
    } else {
        let last = cells[grid.size.cols - 1];
        let wrap = grid.pos.col > grid.size.cols - width && (last.text.len() > 0
            || last.continuation);
        lemma_col_wrap(grid, width, wrap);
    }
}

/// Whatever character is typed, also over one half of a wide one or where too few columns
/// are left, no wide character is ever split, the size stays, and the cursor stays on the
/// screen or waits behind a row.
pub proof fn law_typing_never_splits_a_wide_character(screen: ScreenModel, c: char)
    requires
        screen.wf(),
        screen.whole(),
    ensures
        screen.text(c).whole(),
        screen.text(c).size() == screen.size(),
        screen.text(c).active().pos.row < screen.size().rows,
        screen.text(c).active().pos.col <= screen.size().cols,
{
    let grid = screen.active();
    let width = columns_of(char_columns(c));
    lemma_typed(grid, c, width, screen.attrs, screen.joins);
    lemma_typed_in_place(grid, c, width, screen.attrs, screen.joins);
}

proof fn lemma_fresh(size: Size, scrollback_len: usize)
    ensures
        ScreenModel::fresh(size, scrollback_len).whole(),
{
    lemma_blank_grid(GridModel::fresh(size, scrollback_len));
}

/// A new screen has no split characters.
pub proof fn law_new_screens_are_whole(size: Size, scrollback_len: usize)
    ensures
        ScreenModel::fresh(size, scrollback_len).whole(),
{
    lemma_fresh(size, scrollback_len);
}

/// The cursor that is drawn stands on a character, never on its second half.
pub proof fn law_the_drawn_cursor_owns_its_character(screen: ScreenModel)
    requires
        screen.wf(),
        screen.whole(),
    ensures
        ({
            let cursor = screen.display_cursor();
            &&& cursor.row < screen.size().rows
            &&& cursor.col < screen.size().cols
            &&& !screen.active().rows[cursor.row as int].cells[cursor.col as int].continuation
        }),
{
    let grid = screen.active();
    assert(whole(grid.current_row().cells));
    lemma_owner(grid.current_row().cells, min_int(grid.pos.col as int, grid.size.cols - 1));
}

/// A second half.
spec fn second_half() -> CellModel {
    CellModel { continuation: true, ..CellModel::blank() }
}

proof fn lemma_push_narrow(cells: Seq<CellModel>, cell: CellModel)
    requires
        whole(cells),
        !cell.wide,
        !cell.continuation,
    ensures
        whole(cells.push(cell)),
{
    reveal(whole);
    let after = cells.push(cell);
    assert forall|i: int| 0 <= i < after.len() implies #[trigger] whole_at(after, i) by {
        lemma_whole_around(cells, i);
    }
}

proof fn lemma_push_wide(cells: Seq<CellModel>, cell: CellModel)
    requires
        whole(cells),
        cell.wide,
        !cell.continuation,
    ensures
        whole(cells.push(cell).push(second_half())),
{
    reveal(whole);
    let after = cells.push(cell).push(second_half());
    assert forall|i: int| 0 <= i < after.len() implies #[trigger] whole_at(after, i) by {
        lemma_whole_around(cells, i);
    }
}

proof fn lemma_push_second_half(cells: Seq<CellModel>, cell: CellModel)
    requires
        whole(cells.push(second_half())),
        !cell.wide,
        cell.continuation,
    ensures
        whole(cells.push(cell)),
{
    reveal(whole);
    let before = cells.push(second_half());
    let after = cells.push(cell);
    assert forall|i: int| 0 <= i < after.len() implies #[trigger] whole_at(after, i) by {
        lemma_whole_around(before, i);
    }
}

proof fn lemma_flattened_whole(all: Seq<RowModel>, start: int, end: int)
    requires
        0 <= start <= end <= all.len(),
        rows_whole(all),
    ensures
        whole(flattened(all, start, end)),
    decreases end - start,
{
    if start == end {
        lemma_narrow_is_whole(flattened(all, start, end));
    } else {
        lemma_flattened_whole(all, start, end - 1);
        let front = flattened(all, start, end - 1);
        let back = all[end - 1].cells;
        assert(whole(back));
        reveal(whole);
        let after = front + back;
        assert forall|i: int| 0 <= i < after.len() implies #[trigger] whole_at(after, i) by {
            lemma_whole_around(front, i);
            lemma_whole_around(back, i - front.len());
        }
    }
}

proof fn lemma_trimmed_whole(cells: Seq<CellModel>)
    requires
        whole(cells),
    ensures
        whole(blanks_trimmed(cells)),
    decreases cells.len(),
{
    if cells.len() > 0 && cells.last() == CellModel::blank() {
        let front = cells.drop_last();
        assert(whole(front)) by {
            reveal(whole);
            assert forall|i: int| 0 <= i < front.len() implies #[trigger] whole_at(front, i) by {
                lemma_whole_around(cells, i);
            }
        }
        lemma_trimmed_whole(front);
    }
}

/// Whether chunks split no wide character but the one that is being cut.
spec fn chunks_whole(chunks: ChunkModel, open: bool, width: int) -> bool {
    let last = chunks.rows[chunks.rows.len() - 1];
    &&& chunks.rows.len() > 0
    &&& forall|k: int| 0 <= k < chunks.rows.len() - 1 ==> whole(#[trigger] chunks.rows[k])
    &&& if open {
        whole(last.push(second_half())) && last.len() < width
    } else {
        whole(last)
    }
}

proof fn lemma_chunks_whole(cells: Seq<CellModel>, n: int, width: int, offset: Option<int>)
    requires
        whole(cells),
        0 <= n <= cells.len(),
        width > 0,
    ensures
        chunks_whole(
            chunked(cells, n, width, offset),
            n > 0 && cells[n - 1].wide && width >= 2,
            width,
        ),
    decreases n,
{
    let after = chunked(cells, n, width, offset);
    if n == 0 {
        lemma_narrow_is_whole(after.rows[0]);
    } else {
        lemma_chunks_whole(cells, n - 1, width, offset);
        lemma_whole_around(cells, n - 1);
        let before = chunked(cells, n - 1, width, offset);
        let cell = cells[n - 1];
        let open = n > 1 && cells[n - 2].wide && width >= 2;
        let last = before.rows[before.rows.len() - 1];
        assert(before.rows.last() == last);
        if !(width < 2 && (cell.wide || cell.continuation)) {
            let rows = before.room_for(cell, width);
            let at = rows.len() - 1;
            assert(after.rows == rows.update(at, rows[at].push(cell)));
            if cell.continuation {
                assert(open);
                lemma_push_second_half(last, cell);
            } else {
                assert(!open);
                lemma_narrow_is_whole(Seq::<CellModel>::empty());
                lemma_push_narrow(last, CellModel::blank());
                assert(whole(rows[at]));
                if cell.wide {
                    lemma_push_wide(rows[at], cell);
                } else {
                    lemma_push_narrow(rows[at], cell);
                }
            }
            assert forall|k: int| 0 <= k < after.rows.len() - 1 implies whole(
                #[trigger] after.rows[k],
            ) by {
                if k < before.rows.len() - 1 {
                    assert(after.rows[k] == before.rows[k]);
                }
            }
        }
    }
}

proof fn lemma_line_whole(
    all: Seq<RowModel>,
    start: int,
    end: int,
    cursor_row: int,
    cursor_col: int,
    width: int,
    state: ReflowModel,
)
    requires
        0 <= start <= end < all.len(),
        width > 0,
        rows_whole(all),
        rows_whole(state.out),
    ensures
        rows_whole(reflow_line(all, start, end, cursor_row, cursor_col, width, state).out),
{
    let cells = blanks_trimmed(flattened(all, start, end + 1));
    let offset = cursor_in_line(all, start, end, cursor_row, cursor_col);
    let n = cells.len() as int;
    let chunks = chunked(cells, n, width, offset);
    lemma_flattened_whole(all, start, end + 1);
    lemma_trimmed_whole(flattened(all, start, end + 1));
    lemma_chunks_whole(cells, n, width, offset);
    lemma_chunked(cells, n, width, offset);
    lemma_whole_around(cells, n - 1);
    let placeholder = any_placeholder(all, start, end + 1);
    let rows = line_rows(chunks.rows, width, placeholder);
    assert forall|k: int| 0 <= k < rows.len() implies whole((#[trigger] rows[k]).cells) by {
        let chunk = chunks.rows[k];
        assert(whole(chunk));
        let row = RowModel { cells: chunk, wrapped: false, placeholder };
        lemma_filled_up(row, width as nat);
        assert(rows[k].cells =~= row.resized(width as nat, CellModel::blank()).cells);
    }
    let after = reflow_line(all, start, end, cursor_row, cursor_col, width, state).out;
    assert forall|k: int| 0 <= k < after.len() implies whole((#[trigger] after[k]).cells) by {
        if k < state.out.len() {
            assert(after[k] == state.out[k]);
        } else {
            assert(after[k] == rows[k - state.out.len()]);
        }
    }
}

proof fn lemma_lines_whole(
    all: Seq<RowModel>,
    start: int,
    cursor_row: int,
    cursor_col: int,
    width: int,
    state: ReflowModel,
)
    requires
        0 <= start,
        width > 0,
        rows_whole(all),
        rows_whole(state.out),
    ensures
        rows_whole(reflow_lines(all, start, cursor_row, cursor_col, width, state).out),
    decreases all.len() - start,
{
    if start < all.len() {
        let end = line_end(all, start);
        lemma_line_end(all, start);
        lemma_line_whole(all, start, end, cursor_row, cursor_col, width, state);
        lemma_lines_whole(
            all,
            end + 1,
            cursor_row,
            cursor_col,
            width,
            reflow_line(all, start, end, cursor_row, cursor_col, width, state),
        );
    }
}

proof fn lemma_tail_dropped_whole(rows: Seq<RowModel>, keep: int, cursor_row: int)
    requires
        rows_whole(rows),
    ensures
        rows_whole(blank_tail_dropped(rows, keep, cursor_row)),
    decreases rows.len(),
{
    if rows.len() > keep && rows.len() - 1 > cursor_row && rows.len() > 0
        && rows.last().is_blank() {
        lemma_tail_dropped_whole(rows.drop_last(), keep, cursor_row);
    }
}

proof fn lemma_with_columns_whole(grid: GridModel, cols: u16)
    requires
        grid.whole(),
        cols > 0,
    ensures
        grid.with_columns(cols).whole(),
{
    let all = grid.scrollback + grid.rows;
    assert forall|i: int| 0 <= i < all.len() implies whole((#[trigger] all[i]).cells) by {
        if i < grid.scrollback.len() {
            assert(all[i] == grid.scrollback[i]);
        } else {
            assert(all[i] == grid.rows[i - grid.scrollback.len()]);
        }
    }
    let start = ReflowModel { out: Seq::empty(), cursor: None };
    let lines = reflow_lines(
        all,
        0,
        grid.scrollback.len() + grid.pos.row,
        grid.pos.col as int,
        cols as int,
        start,
    );
    lemma_lines_whole(
        all,
        0,
        grid.scrollback.len() + grid.pos.row,
        grid.pos.col as int,
        cols as int,
        start,
    );
    lemma_reflow_lines(
        all,
        0,
        grid.scrollback.len() + grid.pos.row,
        grid.pos.col as int,
        cols as int,
        start,
    );
    let cursor = match lines.cursor {
        Some(cursor) => cursor,
        None => (max_int(lines.out.len() - 1, 0), 0),
    };
    lemma_tail_dropped_whole(lines.out, grid.rows.len() as int, cursor.0);
    let kept = blank_tail_dropped(lines.out, grid.rows.len() as int, cursor.0);
    lemma_blank_row(cols as nat);
    let first = min_int(max_int(kept.len() - grid.rows.len(), 0), cursor.0);
    lemma_newest(kept.take(first), grid.scrollback_len as int);
    let after = grid.with_columns(cols);
    assert forall|i: int| 0 <= i < after.rows.len() implies whole((#[trigger] after.rows[i]).cells) by {
        if 0 <= first + i < kept.len() {
            assert(whole(kept[first + i].cells));
        }
    }
}

proof fn lemma_rows_dropped_whole(grid: GridModel, target: int)
    requires
        grid.whole(),
    ensures
        grid.rows_dropped(target).whole(),
    decreases grid.rows.len(),
{
    let last = grid.rows.len() - 1;
    if grid.rows.len() <= target || target < 0 {
    } else if last > grid.pos.row && (grid.pos.row == 0 || grid.rows[last].is_blank()) {
        lemma_rows_dropped_whole(GridModel { rows: grid.rows.drop_last(), ..grid }, target);
    } else {
        let next = GridModel {
            rows: grid.rows.remove(0),
            pos: Pos { row: max_int(grid.pos.row - 1, 0) as u16, ..grid.pos },
            saved_pos: Pos { row: max_int(grid.saved_pos.row - 1, 0) as u16, ..grid.saved_pos },
            ..grid.with_history(grid.rows[0])
        };
        lemma_rows_removed(grid.rows, 0);
        assert(whole(grid.rows[0].cells));
        let longer = grid.scrollback.push(grid.rows[0]);
        assert(rows_whole(longer));
        lemma_newest(longer, grid.scrollback_len as int);
        lemma_rows_dropped_whole(next, target);
    }
}

proof fn lemma_rows_added_whole(grid: GridModel, target: int)
    requires
        grid.whole(),
    ensures
        grid.rows_added(target).whole(),
    decreases target - grid.rows.len(),
{
    if grid.rows.len() >= target {
    } else if grid.scrollback.len() > 0 {
        let next = GridModel {
            rows: grid.rows.insert(0, grid.scrollback.last()),
            scrollback: grid.scrollback.drop_last(),
            pos: Pos { row: min_int(grid.pos.row + 1, u16::MAX as int) as u16, ..grid.pos },
            saved_pos: Pos {
                row: min_int(grid.saved_pos.row + 1, u16::MAX as int) as u16,
                ..grid.saved_pos
            },
            ..grid
        };
        assert(whole(grid.scrollback[grid.scrollback.len() - 1].cells));
        lemma_rows_inserted(grid.rows, 0, grid.scrollback.last());
        lemma_rows_added_whole(next, target);
    } else {
        lemma_blank_row(grid.size.cols as nat);
        lemma_rows_added_whole(
            GridModel { rows: grid.rows.push(grid.blank_row()), ..grid },
            target,
        );
    }
}

/// Wrapping lines anew splits no wide character: one that does not fit at the end of a
/// row goes to the next.
pub proof fn law_wrapping_anew_never_splits_a_wide_character(grid: GridModel, size: Size)
    requires
        grid.whole(),
    ensures
        grid.reflowed(size).whole(),
{
    let to = Size { rows: at_least_one(size.rows), cols: at_least_one(size.cols) };
    if grid.rows.len() > 0 {
        lemma_with_columns_whole(grid, to.cols);
        let wrapped = if to.cols != grid.size.cols {
            grid.with_columns(to.cols)
        } else {
            grid
        };
        lemma_rows_dropped_whole(wrapped, to.rows as int);
        lemma_rows_added_whole(wrapped.rows_dropped(to.rows as int), to.rows as int);
    }
}

} // verus!
