//! The text of a screen holds no control characters.

use crate::ratty_vt::attrs::AttrsModel;
use crate::ratty_vt::cell::CellModel;
use crate::ratty_vt::event::EventModel;
use crate::ratty_vt::grid::{Pos, Size};
use crate::ratty_vt::grid_model::{
    any_placeholder, at_least_one, blank_tail_dropped, blanks_trimmed, chunked, cursor_in_line,
    flattened, lemma_chunked, lemma_col_wrap, lemma_line_end, lemma_reflow_lines,
    line_breaks_trimmed, line_end, line_rows, max_int, min_int, newest, reflow_line, reflow_lines,
    row_cells_removed, rows_text, GridModel, ReflowModel,
};
use crate::ratty_vt::perform::{modes_run, param_or};
use crate::ratty_vt::row::{span_end, text_read, RowModel};
use crate::ratty_vt::screen_model::{
    columns_of, owner_col, row_drawn, row_joined, text_of_rows, ScreenModel,
};
use crate::ratty_vt::unicode::{char_columns, is_control, text_width};
use vstd::prelude::*;

verus! {

/// Whether text holds no control characters.
pub open spec fn clean_text(text: Seq<char>) -> bool {
    forall|i: int| 0 <= i < text.len() ==> !is_control(#[trigger] text[i])
}

/// Whether text holds no control characters but line breaks.
pub open spec fn clean_lines(text: Seq<char>) -> bool {
    forall|i: int| 0 <= i < text.len() ==> text[i] == '\n' || !is_control(#[trigger] text[i])
}

/// Whether cells hold no control characters.
#[verifier::opaque]
pub open spec fn clean_cells(cells: Seq<CellModel>) -> bool {
    forall|i: int| 0 <= i < cells.len() ==> clean_text((#[trigger] cells[i]).text)
}

pub open spec fn clean_row(row: RowModel) -> bool {
    clean_cells(row.cells)
}

pub open spec fn rows_clean(rows: Seq<RowModel>) -> bool {
    forall|i: int| 0 <= i < rows.len() ==> clean_row(#[trigger] rows[i])
}

impl GridModel {
    /// Whether the grid and its scrollback hold no control characters.
    pub open spec fn clean(self) -> bool {
        rows_clean(self.rows) && rows_clean(self.scrollback)
    }
}

impl ScreenModel {
    /// Whether the screen holds no control characters.
    pub open spec fn clean(self) -> bool {
        self.grid.clean() && self.alternate_grid.clean()
    }

    /// Whether the screen holds no control characters.
    #[verifier::opaque]
    pub open spec fn holds_no_controls(self) -> bool {
        self.clean()
    }
}

proof fn lemma_blank_row(cols: nat)
    ensures
        clean_row(RowModel::blank(cols)),
{
    reveal(clean_cells);
}

proof fn lemma_cleared_row(row: RowModel, attrs: AttrsModel)
    ensures
        clean_row(row.cleared(attrs)),
{
    reveal(clean_cells);
}

proof fn lemma_erased_range(row: RowModel, from: int, to: int, attrs: AttrsModel)
    requires
        clean_row(row),
        0 <= from,
        to <= row.cells.len(),
    ensures
        clean_row(row.erased_range(from, to, attrs)),
        row.erased_range(from, to, attrs).cells.len() == row.cells.len(),
    decreases to - from,
{
    if from < to {
        reveal(clean_cells);
        lemma_erased_range(row, from, to - 1, attrs);
        let before = row.erased_range(from, to - 1, attrs);
        let after = before.erased(to - 1, attrs);
        assert forall|i: int| 0 <= i < after.cells.len() implies clean_text(
            (#[trigger] after.cells[i]).text,
        ) by {
            assert(clean_text(before.cells[i].text));
        }
    }
}

proof fn lemma_cells_removed(row: RowModel, col: int, count: int)
    requires
        clean_row(row),
        0 <= col,
        col + count <= row.cells.len(),
    ensures
        clean_row(row_cells_removed(row, col, count)),
        row_cells_removed(row, col, count).cells.len() == row.cells.len() - max_int(count, 0),
    decreases count,
{
    if count > 0 {
        reveal(clean_cells);
        lemma_cells_removed(row, col, count - 1);
        let before = row_cells_removed(row, col, count - 1);
        let after = before.removed(col);
        assert forall|i: int| 0 <= i < after.cells.len() implies clean_text(
            (#[trigger] after.cells[i]).text,
        ) by {
            assert(clean_text(before.cells[if i < col { i } else { i + 1 }].text));
        }
    }
}

proof fn lemma_filled_up(row: RowModel, len: nat)
    requires
        clean_row(row),
    ensures
        clean_row(row.resized(len, CellModel::blank())),
{
    reveal(clean_cells);
    let after = row.resized(len, CellModel::blank());
    assert forall|i: int| 0 <= i < after.cells.len() implies clean_text(
        (#[trigger] after.cells[i]).text,
    ) by {
        if i < row.cells.len() {
            assert(clean_text(row.cells[i].text));
        }
    }
}

proof fn lemma_inserted(grid: GridModel, count: int)
    requires
        grid.wf(),
        grid.allocated(),
        grid.clean(),
        count >= 0,
    ensures
        grid.cells_inserted(count).clean(),
{
    reveal(clean_cells);
    let row = grid.current_row();
    assert(clean_row(row));
    let col = grid.pos.col as int;
    let cols = grid.size.cols as int;
    let after = grid.cells_inserted(count).rows[grid.pos.row as int];
    assert forall|i: int| 0 <= i < after.cells.len() implies clean_text(
        (#[trigger] after.cells[i]).text,
    ) by {
        let from = if i < col { i } else { i - count };
        if 0 <= from < cols {
            assert(clean_text(row.cells[from].text));
        }
    }
    lemma_with_row(grid, grid.pos.row as int, after);
}

proof fn lemma_scrolled_up_once(grid: GridModel)
    requires
        grid.clean(),
        grid.scroll_top <= grid.scroll_bottom,
        grid.scroll_bottom < grid.rows.len(),
    ensures
        grid.scrolled_up_once().clean(),
        grid.scrolled_up_once().rows.len() == grid.rows.len(),
{
    lemma_blank_row(grid.size.cols as nat);
    let inserted = grid.rows.insert(grid.scroll_bottom + 1, grid.blank_row());
    assert(rows_clean(inserted)) by {
        assert forall|i: int| 0 <= i < inserted.len() implies clean_row(#[trigger] inserted[i]) by {
            if i < grid.scroll_bottom + 1 {
                assert(inserted[i] == grid.rows[i]);
            } else if i > grid.scroll_bottom + 1 {
                assert(inserted[i] == grid.rows[i - 1]);
            }
        }
    }
    lemma_rows_removed(inserted, grid.scroll_top as int);
    let first = grid.rows[grid.scroll_top as int];
    assert(clean_row(first));
    let longer = grid.scrollback.push(first);
    assert(rows_clean(longer));
    lemma_newest(longer, grid.scrollback_len as int);
}

proof fn lemma_rows_removed(rows: Seq<RowModel>, at: int)
    requires
        rows_clean(rows),
        0 <= at < rows.len(),
    ensures
        rows_clean(rows.remove(at)),
{
    let after = rows.remove(at);
    assert forall|i: int| 0 <= i < after.len() implies clean_row(#[trigger] after[i]) by {
        if i < at {
            assert(after[i] == rows[i]);
        } else {
            assert(after[i] == rows[i + 1]);
        }
    }
}

proof fn lemma_rows_inserted(rows: Seq<RowModel>, at: int, row: RowModel)
    requires
        rows_clean(rows),
        clean_row(row),
        0 <= at <= rows.len(),
    ensures
        rows_clean(rows.insert(at, row)),
{
    let after = rows.insert(at, row);
    assert forall|i: int| 0 <= i < after.len() implies clean_row(#[trigger] after[i]) by {
        if i < at {
            assert(after[i] == rows[i]);
        } else if i > at {
            assert(after[i] == rows[i - 1]);
        }
    }
}

proof fn lemma_newest(rows: Seq<RowModel>, n: int)
    requires
        rows_clean(rows),
        0 <= n,
    ensures
        rows_clean(newest(rows, n)),
{
    let after = newest(rows, n);
    assert forall|i: int| 0 <= i < after.len() implies clean_row(#[trigger] after[i]) by {
        if rows.len() > n {
            assert(after[i] == rows[rows.len() - n + i]);
        }
    }
}

proof fn lemma_scrolled_up_by(grid: GridModel, count: int)
    requires
        grid.clean(),
        grid.scroll_top <= grid.scroll_bottom,
        grid.scroll_bottom < grid.rows.len(),
    ensures
        grid.scrolled_up_by(count).clean(),
        grid.scrolled_up_by(count).rows.len() == grid.rows.len(),
        grid.scrolled_up_by(count).scroll_top == grid.scroll_top,
        grid.scrolled_up_by(count).scroll_bottom == grid.scroll_bottom,
        grid.scrolled_up_by(count).size == grid.size,
    decreases count,
{
    if count > 0 {
        lemma_scrolled_up_by(grid, count - 1);
        lemma_scrolled_up_once(grid.scrolled_up_by(count - 1));
    }
}

proof fn lemma_lines_inserted(grid: GridModel, at: int, count: int)
    requires
        grid.clean(),
        grid.scroll_bottom < grid.rows.len(),
        0 <= at < grid.rows.len(),
    ensures
        grid.lines_inserted_at(at, count).clean(),
        grid.lines_inserted_at(at, count).rows.len() == grid.rows.len(),
        grid.lines_inserted_at(at, count).scroll_bottom == grid.scroll_bottom,
        grid.lines_inserted_at(at, count).scroll_top == grid.scroll_top,
        grid.lines_inserted_at(at, count).size == grid.size,
    decreases count,
{
    reveal(clean_row);
    if count > 0 {
        lemma_lines_inserted(grid, at, count - 1);
        let before = grid.lines_inserted_at(at, count - 1);
        lemma_blank_row(before.size.cols as nat);
        lemma_rows_removed(before.rows, before.scroll_bottom as int);
        let removed = before.rows.remove(before.scroll_bottom as int);
        lemma_rows_inserted(removed, at, before.blank_row());
        let inserted = removed.insert(at, before.blank_row());
        assert(clean_row(inserted[before.scroll_bottom as int]));
        let after = before.line_inserted(at);
        assert forall|i: int| 0 <= i < after.rows.len() implies clean_row(#[trigger] after.rows[i]) by {
            assert(clean_row(inserted[i]));
            assert(after.rows[i].cells == inserted[i].cells);
        }
    }
}

proof fn lemma_lines_deleted(grid: GridModel, count: int)
    requires
        grid.clean(),
        grid.scroll_bottom < grid.rows.len(),
        grid.pos.row < grid.rows.len(),
    ensures
        grid.lines_deleted_by(count).clean(),
        grid.lines_deleted_by(count).rows.len() == grid.rows.len(),
        grid.lines_deleted_by(count).scroll_bottom == grid.scroll_bottom,
        grid.lines_deleted_by(count).scroll_top == grid.scroll_top,
        grid.lines_deleted_by(count).size == grid.size,
        grid.lines_deleted_by(count).pos == grid.pos,
    decreases count,
{
    if count > 0 {
        lemma_lines_deleted(grid, count - 1);
        let before = grid.lines_deleted_by(count - 1);
        lemma_blank_row(before.size.cols as nat);
        lemma_rows_inserted(before.rows, before.scroll_bottom + 1, before.blank_row());
        lemma_rows_removed(
            before.rows.insert(before.scroll_bottom + 1, before.blank_row()),
            before.pos.row as int,
        );
    }
}

proof fn lemma_with_row(grid: GridModel, i: int, row: RowModel)
    requires
        grid.clean(),
        clean_row(row),
        0 <= i < grid.rows.len(),
    ensures
        grid.with_row(i, row).clean(),
{
    let after = grid.with_row(i, row);
    assert forall|k: int| 0 <= k < after.rows.len() implies clean_row(#[trigger] after.rows[k]) by {
        if k != i {
            assert(after.rows[k] == grid.rows[k]);
        }
    }
}

proof fn lemma_row_inc_scroll(grid: GridModel, count: int)
    requires
        grid.wf(),
        grid.allocated(),
        grid.clean(),
        count >= 0,
    ensures
        grid.row_inc_scroll(count).0.clean(),
        grid.row_inc_scroll(count).0.rows.len() == grid.rows.len(),
{
    let (moved, lines) = grid.row_down(count).clamp_bottom(grid.in_scroll_region());
    lemma_scrolled_up_by(moved, min_int(lines, moved.size.rows - moved.scroll_top));
}

proof fn lemma_erased_cols(grid: GridModel, from: int, to: int, attrs: AttrsModel)
    requires
        grid.wf(),
        grid.allocated(),
        grid.clean(),
        0 <= from,
        to <= grid.size.cols,
    ensures
        grid.erased_cols(from, to, attrs).clean(),
{
    assert(clean_row(grid.current_row()));
    lemma_erased_range(grid.current_row(), from, to, attrs);
    lemma_with_row(
        grid,
        grid.pos.row as int,
        grid.current_row().erased_range(from, to, attrs),
    );
}

/// Rows of which some were cleared.
proof fn lemma_some_cleared(before: GridModel, after: GridModel, attrs: AttrsModel)
    requires
        before.clean(),
        after == (GridModel { rows: after.rows, ..before }),
        after.rows.len() == before.rows.len(),
        forall|i: int|
            0 <= i < after.rows.len() ==> (#[trigger] after.rows[i]) == before.rows[i]
                || after.rows[i] == before.rows[i].cleared(attrs),
    ensures
        after.clean(),
{
    assert forall|i: int| 0 <= i < after.rows.len() implies clean_row(#[trigger] after.rows[i]) by {
        lemma_cleared_row(before.rows[i], attrs);
        assert(clean_row(before.rows[i]));
    }
}

proof fn lemma_display_erased(screen: ScreenModel, mode: u16)
    requires
        screen.wf(),
        screen.clean(),
    ensures
        screen.display_erased(mode) matches Some(after) ==> after.clean(),
        screen.line_erased(mode) matches Some(after) ==> after.clean(),
{
    reveal(ScreenModel::display_erased);
    reveal(ScreenModel::line_erased);
    let grid = screen.active();
    let attrs = screen.attrs;
    lemma_some_cleared(grid, grid.erased_all(attrs), attrs);
    lemma_cleared_row(grid.current_row(), attrs);
    lemma_erased_cols(grid, grid.pos.col as int, grid.size.cols as int, attrs);
    lemma_erased_cols(grid, 0, min_int(grid.pos.col as int, grid.size.cols - 1) + 1, attrs);
    let below = GridModel {
        rows: Seq::new(
            grid.rows.len(),
            |i: int|
                if i > grid.pos.row {
                    grid.rows[i].cleared(attrs)
                } else {
                    grid.rows[i]
                },
        ),
        ..grid
    };
    lemma_some_cleared(grid, below, attrs);
    lemma_erased_cols(below, below.pos.col as int, below.size.cols as int, attrs);
    let above = GridModel {
        rows: Seq::new(
            grid.rows.len(),
            |i: int|
                if i < grid.pos.row {
                    grid.rows[i].cleared(attrs)
                } else {
                    grid.rows[i]
                },
        ),
        ..grid
    };
    lemma_some_cleared(grid, above, attrs);
    lemma_erased_cols(above, 0, min_int(above.pos.col as int, above.size.cols - 1) + 1, attrs);
}

proof fn lemma_cells_deleted(grid: GridModel, count: int)
    requires
        grid.wf(),
        grid.allocated(),
        grid.clean(),
        count >= 0,
    ensures
        grid.cells_deleted(count).clean(),
{
    assert(clean_row(grid.current_row()));
    let n = min_int(count, grid.size.cols - grid.pos.col);
    lemma_cells_removed(grid.current_row(), grid.pos.col as int, n);
    let row = row_cells_removed(grid.current_row(), grid.pos.col as int, n);
    lemma_filled_up(row, grid.size.cols as nat);
    lemma_with_row(
        grid,
        grid.pos.row as int,
        row.resized(grid.size.cols as nat, CellModel::blank()),
    );
}

/// A grid whose rows are all blank.
proof fn lemma_blank_grid(grid: GridModel)
    requires
        rows_clean(grid.scrollback),
    ensures
        grid.cleared().clean(),
        grid.clean() ==> grid.with_rows_allocated().clean(),
{
    lemma_blank_row(grid.size.cols as nat);
    let allocated = grid.with_rows_allocated();
    assert forall|i: int| 0 <= i < allocated.rows.len() && grid.rows.len() == 0 implies clean_row(#[trigger] allocated.rows[i]) by {}
    let cleared = grid.cleared();
    assert forall|i: int| 0 <= i < cleared.rows.len() implies clean_row(#[trigger] cleared.rows[i]) by {
        lemma_cleared_row(grid.rows[i], AttrsModel::plain());
    }
}

proof fn lemma_alternate_entered(screen: ScreenModel)
    requires
        screen.clean(),
    ensures
        screen.alternate_entered().clean(),
{
    let left = screen.with_active(screen.active().scrolled_back(0));
    assert(left.clean());
    lemma_blank_grid(left.alternate_grid);
}

proof fn lemma_alternate_opened(screen: ScreenModel)
    requires
        screen.clean(),
    ensures
        screen.alternate_opened().clean(),
{
    let saved = screen.cursor_saved();
    assert(saved.clean());
    lemma_blank_grid(saved.alternate_grid);
    let cleared = ScreenModel { alternate_grid: saved.alternate_grid.cleared(), ..saved };
    assert(cleared.clean());
    lemma_alternate_entered(cleared);
}

/// A screen that differs from another in what is no row.
proof fn lemma_same_rows(before: ScreenModel, after: ScreenModel)
    requires
        before.clean(),
        after.grid.rows == before.grid.rows,
        after.grid.scrollback == before.grid.scrollback,
        after.alternate_grid.rows == before.alternate_grid.rows,
        after.alternate_grid.scrollback == before.alternate_grid.scrollback,
    ensures
        after.clean(),
{
}

proof fn lemma_mode_set(screen: ScreenModel, param: Seq<u16>)
    requires
        screen.clean(),
    ensures
        screen.private_mode_set(param) matches Some(after) ==> after.clean(),
{
    reveal(ScreenModel::private_mode_set);
    if let Some(after) = screen.private_mode_set(param) {
        if param[0] == 47 {
            lemma_alternate_entered(screen);
        } else if param[0] == 1049 {
            lemma_alternate_opened(screen);
        } else {
            lemma_same_rows(screen, after);
        }
    }
}

proof fn lemma_mode_reset(screen: ScreenModel, param: Seq<u16>)
    requires
        screen.clean(),
    ensures
        screen.private_mode_reset(param) matches Some(after) ==> after.clean(),
{
    reveal(ScreenModel::private_mode_reset);
    if let Some(after) = screen.private_mode_reset(param) {
        lemma_same_rows(screen, after);
    }
}

proof fn lemma_modes_run(screen: ScreenModel, params: Seq<Seq<u16>>, i: int, set: bool)
    requires
        screen.clean(),
    ensures
        modes_run(screen, params, i, set).0.clean(),
    decreases params.len() - i,
{
    if 0 <= i < params.len() {
        lemma_mode_set(screen, params[i]);
        lemma_mode_reset(screen, params[i]);
        let changed = if set {
            screen.private_mode_set(params[i])
        } else {
            screen.private_mode_reset(params[i])
        };
        if let Some(next) = changed {
            lemma_modes_run(next, params, i + 1, set);
        }
    }
}

#[verifier::spinoff_prover]
#[verifier::rlimit(40)]
proof fn lemma_csi(screen: ScreenModel, params: Seq<Seq<u16>>, c: char)
    requires
        screen.wf(),
        screen.clean(),
    ensures
        screen.csi_plain(params, c) matches Some(after) ==> after.clean(),
{
    reveal(ScreenModel::csi_plain);
    let grid = screen.active();
    let count = param_or(params, 0, 1) as int;
    if c == '@' {
        lemma_inserted(grid, count);
    } else if c == 'J' || c == 'K' {
        lemma_display_erased(screen, param_or(params, 0, 0));
    } else if c == 'L' {
        lemma_lines_inserted(grid, grid.pos.row as int, count);
    } else if c == 'M' {
        lemma_lines_deleted(grid, min_int(count, grid.size.rows - grid.pos.row));
    } else if c == 'P' {
        lemma_cells_deleted(grid, count);
    } else if c == 'S' {
        lemma_scrolled_up_by(grid, min_int(count, grid.size.rows - grid.scroll_top));
    } else if c == 'T' {
        lemma_lines_inserted(grid, grid.scroll_top as int, count);
    } else if c == 'X' {
        lemma_erased_cols(
            grid,
            grid.pos.col as int,
            min_int(min_int(grid.pos.col + count, u16::MAX as int), grid.size.cols as int),
            screen.attrs,
        );
    }
}

proof fn lemma_executed(screen: ScreenModel, b: u8)
    requires
        screen.wf(),
        screen.clean(),
    ensures
        screen.executed(b).screen.clean(),
{
    if 10 <= b <= 12 {
        lemma_row_inc_scroll(screen.active(), 1);
    } else {
        lemma_same_rows(screen, screen.executed(b).screen);
    }
}

proof fn lemma_escaped(screen: ScreenModel, intermediates: Seq<u8>, b: u8)
    requires
        screen.wf(),
        screen.clean(),
    ensures
        screen.escaped(intermediates, b).screen.clean(),
{
    if intermediates.len() == 0 && b == 'M' as u8 {
        let grid = screen.active();
        let (moved, lines) = grid.row_up(1).clamp_top(grid.in_scroll_region());
        lemma_lines_inserted(
            moved,
            moved.scroll_top as int,
            lines + max_int(1 - grid.pos.row, 0),
        );
    } else if intermediates.len() == 0 && b == 'c' as u8 {
        lemma_fresh(screen.grid.size, screen.grid.scrollback_len);
    } else {
        lemma_same_rows(screen, screen.escaped(intermediates, b).screen);
    }
}

proof fn lemma_controlled(
    screen: ScreenModel,
    params: Seq<Seq<u16>>,
    intermediates: Seq<u8>,
    c: char,
    from: int,
)
    requires
        screen.wf(),
        screen.clean(),
    ensures
        screen.controlled(params, intermediates, c, from).screen.clean(),
{
    reveal(ScreenModel::csi_keyboard);
    if intermediates.len() == 0 {
        if c == 'm' {
            lemma_same_rows(screen, screen.controlled(params, intermediates, c, from).screen);
        } else {
            lemma_csi(screen, params, c);
        }
    } else if intermediates[0] == '?' as u8 && (c == 'h' || c == 'l') {
        lemma_modes_run(screen, params, from, c == 'h');
    } else if intermediates[0] != '?' as u8 {
        lemma_same_rows(screen, screen.controlled(params, intermediates, c, from).screen);
    } else {
        lemma_display_erased(screen, param_or(params, 0, 0));
    }
}

/// A character drawn.
proof fn lemma_drawn(row: RowModel, col: int, c: char, wide: bool, attrs: AttrsModel)
    requires
        clean_row(row),
        0 <= col < row.cells.len(),
        wide ==> col + 1 < row.cells.len(),
        !is_control(c),
    ensures
        clean_row(row_drawn(row, col, c, wide, attrs)),
{
    reveal(clean_cells);
    let after = row_drawn(row, col, c, wide, attrs);
    assert forall|i: int| 0 <= i < after.cells.len() implies clean_text(
        (#[trigger] after.cells[i]).text,
    ) by {
        assert(clean_text(row.cells[i].text));
    }
}

/// A character added to the text of a cell.
proof fn lemma_joined(row: RowModel, col: int, c: char, wide: bool, attrs: AttrsModel)
    requires
        clean_row(row),
        0 <= col < row.cells.len(),
        !is_control(c),
    ensures
        clean_row(row_joined(row, col, c, wide, attrs)),
{
    reveal(clean_cells);
    let cell = row.cells[col];
    assert(clean_text(cell.text));
    assert(clean_text(cell.appended(c).text));
    let after = row_joined(row, col, c, wide, attrs);
    assert forall|i: int| 0 <= i < after.cells.len() implies clean_text(
        (#[trigger] after.cells[i]).text,
    ) by {
        assert(clean_text(row.cells[i].text));
    }
}

proof fn lemma_drawn_on_grid(grid: GridModel, c: char, width: int, attrs: AttrsModel)
    requires
        grid.wf(),
        grid.allocated(),
        grid.clean(),
        1 <= width <= grid.size.cols,
        !is_control(c),
    ensures
        grid.drawn(c, width, attrs).clean(),
{
    let last = grid.current_row().cells[grid.size.cols - 1];
    let wrap = grid.pos.col > grid.size.cols - width && (last.text.len() > 0 || last.continuation);
    if grid.pos.col > grid.size.cols - width {
        let start = grid.at(grid.pos.row as int, 0);
        lemma_row_inc_scroll(start, 1);
        let (moved, scrolled) = start.row_inc_scroll(1);
        let left = max_int(grid.pos.row - scrolled, 0);
        assert(clean_row(moved.rows[left]));
        lemma_with_row(moved, left, moved.rows[left].with_wrap(wrap && left + 1 == moved.pos.row));
    }
    lemma_col_wrap(grid, width, wrap);
    let ready = grid.col_wrap(width, wrap);
    assert(ready.clean());
    assert(clean_row(ready.current_row()));
    lemma_drawn(ready.current_row(), ready.pos.col as int, c, width > 1, attrs);
    lemma_with_row(
        ready,
        ready.pos.row as int,
        row_drawn(ready.current_row(), ready.pos.col as int, c, width > 1, attrs),
    );
}

proof fn lemma_joined_on_grid(grid: GridModel, at: Pos, c: char, wide: bool, attrs: AttrsModel)
    requires
        grid.clean(),
        at.row < grid.rows.len(),
        at.col < grid.rows[at.row as int].cells.len(),
        !is_control(c),
    ensures
        grid.joined(at, c, wide, attrs).clean(),
{
    let before = grid.rows[at.row as int];
    assert(clean_row(before));
    lemma_joined(before, at.col as int, c, wide, attrs);
    lemma_with_row(grid, at.row as int, row_joined(before, at.col as int, c, wide, attrs));
}

proof fn lemma_typed(grid: GridModel, c: char, width: int, attrs: AttrsModel, joins: bool)
    requires
        grid.wf(),
        grid.allocated(),
        grid.clean(),
        width >= 0,
        !is_control(c),
    ensures
        grid.typed(c, width, attrs, joins).clean(),
{
    let cells = grid.current_row().cells;
    if width > grid.size.cols {
    } else if width == 0 {
        if let Some(at) = grid.mark_target() {
            lemma_joined_on_grid(grid, at, c, text_width(grid.joined_text(at, c)) > 1, attrs);
        }
    } else if joins && grid.extends_cluster(c) {
        let at = Pos { row: grid.pos.row, col: owner_col(cells, grid.pos.col - 1) as u16 };
        lemma_joined_on_grid(grid, at, c, text_width(grid.joined_text(at, c)) > 1, attrs);
    } else {
        lemma_drawn_on_grid(grid, c, width, attrs);
    }
}

proof fn lemma_fresh(size: Size, scrollback_len: usize)
    ensures
        ScreenModel::fresh(size, scrollback_len).clean(),
{
    lemma_blank_grid(GridModel::fresh(size, scrollback_len));
}

/// A new screen holds no control characters.
pub proof fn law_new_screens_are_clean(size: Size, scrollback_len: usize)
    ensures
        ScreenModel::fresh(size, scrollback_len).holds_no_controls(),
{
    reveal(ScreenModel::holds_no_controls);
    lemma_fresh(size, scrollback_len);
}

/// Whatever character is typed, no control character gets into a cell.
pub proof fn law_typing_keeps_screens_clean(screen: ScreenModel, c: char)
    requires
        screen.wf(),
        screen.holds_no_controls(),
    ensures
        screen.text(c).holds_no_controls(),
{
    reveal(ScreenModel::holds_no_controls);
    if !is_control(c) {
        lemma_typed(
            screen.active(),
            c,
            columns_of(char_columns(c)),
            screen.attrs,
            screen.joins,
        );
    }
}

/// Whatever an application sends, no control character gets into a cell.
pub proof fn law_output_keeps_screens_clean(screen: ScreenModel, event: EventModel, from: int)
    requires
        screen.wf(),
        screen.holds_no_controls(),
    ensures
        screen.performed(event, from).screen.holds_no_controls(),
{
    reveal(ScreenModel::holds_no_controls);
    reveal(ScreenModel::performed);
    let screen = if ScreenModel::goes_on(event) { screen } else { screen.parted() };
    match event {
        EventModel::Print(c) => {
            law_typing_keeps_screens_clean(screen, c);
        },
        EventModel::Execute(b) => {
            lemma_executed(screen, b);
        },
        EventModel::Esc(intermediates, b) => {
            lemma_escaped(screen, intermediates, b);
        },
        EventModel::Csi(params, intermediates, c) => {
            lemma_controlled(screen, params, intermediates, c, from);
        },
        EventModel::Osc(params) => {
            lemma_same_rows(screen, screen.commanded(params, from).screen);
        },
    }
}

// Resizing.

proof fn lemma_flattened(all: Seq<RowModel>, start: int, end: int)
    requires
        0 <= start <= end <= all.len(),
        rows_clean(all),
    ensures
        clean_cells(flattened(all, start, end)),
    decreases end - start,
{
    reveal(clean_cells);
    if start < end {
        lemma_flattened(all, start, end - 1);
        let front = flattened(all, start, end - 1);
        let back = all[end - 1].cells;
        assert(clean_row(all[end - 1]));
        let after = front + back;
        assert forall|i: int| 0 <= i < after.len() implies clean_text((#[trigger] after[i]).text) by {
            if i < front.len() {
                assert(clean_text(front[i].text));
            } else {
                assert(clean_text(back[i - front.len()].text));
            }
        }
    }
}

proof fn lemma_trimmed_cells(cells: Seq<CellModel>)
    requires
        clean_cells(cells),
    ensures
        clean_cells(blanks_trimmed(cells)),
    decreases cells.len(),
{
    if cells.len() > 0 && cells.last() == CellModel::blank() {
        let front = cells.drop_last();
        assert(clean_cells(front)) by {
            reveal(clean_cells);
            assert forall|i: int| 0 <= i < front.len() implies clean_text(
                (#[trigger] front[i]).text,
            ) by {
                assert(clean_text(cells[i].text));
            }
        }
        lemma_trimmed_cells(front);
    }
}

proof fn lemma_chunks(cells: Seq<CellModel>, n: int, width: int, offset: Option<int>)
    requires
        clean_cells(cells),
        0 <= n <= cells.len(),
    ensures
        ({
            let rows = chunked(cells, n, width, offset).rows;
            &&& rows.len() > 0
            &&& forall|k: int| 0 <= k < rows.len() ==> clean_cells(#[trigger] rows[k])
        }),
    decreases n,
{
    reveal(clean_cells);
    if n > 0 {
        lemma_chunks(cells, n - 1, width, offset);
        let before = chunked(cells, n - 1, width, offset);
        let after = chunked(cells, n, width, offset);
        let cell = cells[n - 1];
        assert(clean_text(cell.text));
        let last = before.rows[before.rows.len() - 1];
        assert(before.rows.last() == last);
        assert(clean_cells(last));
        assert forall|k: int| 0 <= k < after.rows.len() implies clean_cells(
            #[trigger] after.rows[k],
        ) by {
            if k < before.rows.len() - 1 {
                assert(clean_cells(before.rows[k]));
                assert(after.rows[k] == before.rows[k]);
            } else {
                assert forall|i: int| 0 <= i < after.rows[k].len() implies clean_text(
                    (#[trigger] after.rows[k][i]).text,
                ) by {
                    if k == before.rows.len() - 1 && i < last.len() {
                        assert(clean_text(last[i].text));
                    }
                }
            }
        }
    }
}

proof fn lemma_line_clean(
    all: Seq<RowModel>,
    start: int,
    end: int,
    cursor_row: int,
    cursor_col: int,
    width: int,
    state: ReflowModel,
)
    requires
        0 <= start <= end < all.len(),
        width > 0,
        rows_clean(all),
        rows_clean(state.out),
    ensures
        rows_clean(reflow_line(all, start, end, cursor_row, cursor_col, width, state).out),
{
    let cells = blanks_trimmed(flattened(all, start, end + 1));
    let offset = cursor_in_line(all, start, end, cursor_row, cursor_col);
    let n = cells.len() as int;
    let chunks = chunked(cells, n, width, offset);
    lemma_flattened(all, start, end + 1);
    lemma_trimmed_cells(flattened(all, start, end + 1));
    lemma_chunks(cells, n, width, offset);
    lemma_chunked(cells, n, width, offset);
    let placeholder = any_placeholder(all, start, end + 1);
    let rows = line_rows(chunks.rows, width, placeholder);
    assert forall|k: int| 0 <= k < rows.len() implies clean_row(#[trigger] rows[k]) by {
        let chunk = chunks.rows[k];
        assert(clean_cells(chunk));
        let row = RowModel { cells: chunk, wrapped: false, placeholder };
        lemma_filled_up(row, width as nat);
        assert(rows[k].cells =~= row.resized(width as nat, CellModel::blank()).cells);
    }
    let after = reflow_line(all, start, end, cursor_row, cursor_col, width, state).out;
    assert forall|k: int| 0 <= k < after.len() implies clean_row(#[trigger] after[k]) by {
        if k < state.out.len() {
            assert(after[k] == state.out[k]);
        } else {
            assert(after[k] == rows[k - state.out.len()]);
        }
    }
}

proof fn lemma_lines_clean(
    all: Seq<RowModel>,
    start: int,
    cursor_row: int,
    cursor_col: int,
    width: int,
    state: ReflowModel,
)
    requires
        0 <= start,
        width > 0,
        rows_clean(all),
        rows_clean(state.out),
    ensures
        rows_clean(reflow_lines(all, start, cursor_row, cursor_col, width, state).out),
    decreases all.len() - start,
{
    if start < all.len() {
        let end = line_end(all, start);
        lemma_line_end(all, start);
        lemma_line_clean(all, start, end, cursor_row, cursor_col, width, state);
        lemma_lines_clean(
            all,
            end + 1,
            cursor_row,
            cursor_col,
            width,
            reflow_line(all, start, end, cursor_row, cursor_col, width, state),
        );
    }
}

proof fn lemma_tail_dropped_clean(rows: Seq<RowModel>, keep: int, cursor_row: int)
    requires
        rows_clean(rows),
    ensures
        rows_clean(blank_tail_dropped(rows, keep, cursor_row)),
    decreases rows.len(),
{
    if rows.len() > keep && rows.len() - 1 > cursor_row && rows.len() > 0
        && rows.last().is_blank() {
        lemma_tail_dropped_clean(rows.drop_last(), keep, cursor_row);
    }
}

proof fn lemma_with_columns_clean(grid: GridModel, cols: u16)
    requires
        grid.clean(),
        cols > 0,
    ensures
        grid.with_columns(cols).clean(),
{
    let all = grid.scrollback + grid.rows;
    assert forall|i: int| 0 <= i < all.len() implies clean_row(#[trigger] all[i]) by {
        if i < grid.scrollback.len() {
            assert(all[i] == grid.scrollback[i]);
        } else {
            assert(all[i] == grid.rows[i - grid.scrollback.len()]);
        }
    }
    let start = ReflowModel { out: Seq::empty(), cursor: None };
    let lines = reflow_lines(
        all,
        0,
        grid.scrollback.len() + grid.pos.row,
        grid.pos.col as int,
        cols as int,
        start,
    );
    lemma_lines_clean(
        all,
        0,
        grid.scrollback.len() + grid.pos.row,
        grid.pos.col as int,
        cols as int,
        start,
    );
    lemma_reflow_lines(
        all,
        0,
        grid.scrollback.len() + grid.pos.row,
        grid.pos.col as int,
        cols as int,
        start,
    );
    let cursor = match lines.cursor {
        Some(cursor) => cursor,
        None => (max_int(lines.out.len() - 1, 0), 0),
    };
    lemma_tail_dropped_clean(lines.out, grid.rows.len() as int, cursor.0);
    let kept = blank_tail_dropped(lines.out, grid.rows.len() as int, cursor.0);
    lemma_blank_row(cols as nat);
    let first = min_int(max_int(kept.len() - grid.rows.len(), 0), cursor.0);
    lemma_newest(kept.take(first), grid.scrollback_len as int);
    let after = grid.with_columns(cols);
    assert forall|i: int| 0 <= i < after.rows.len() implies clean_row(#[trigger] after.rows[i]) by {
        if 0 <= first + i < kept.len() {
            assert(clean_row(kept[first + i]));
        }
    }
}

proof fn lemma_rows_dropped_clean(grid: GridModel, target: int)
    requires
        grid.clean(),
    ensures
        grid.rows_dropped(target).clean(),
    decreases grid.rows.len(),
{
    let last = grid.rows.len() - 1;
    if grid.rows.len() <= target || target < 0 {
    } else if last > grid.pos.row && (grid.pos.row == 0 || grid.rows[last].is_blank()) {
        lemma_rows_dropped_clean(GridModel { rows: grid.rows.drop_last(), ..grid }, target);
    } else {
        let next = GridModel {
            rows: grid.rows.remove(0),
            pos: Pos { row: max_int(grid.pos.row - 1, 0) as u16, ..grid.pos },
            saved_pos: Pos { row: max_int(grid.saved_pos.row - 1, 0) as u16, ..grid.saved_pos },
            ..grid.with_history(grid.rows[0])
        };
        lemma_rows_removed(grid.rows, 0);
        assert(clean_row(grid.rows[0]));
        let longer = grid.scrollback.push(grid.rows[0]);
        assert(rows_clean(longer));
        lemma_newest(longer, grid.scrollback_len as int);
        lemma_rows_dropped_clean(next, target);
    }
}

proof fn lemma_rows_added_clean(grid: GridModel, target: int)
    requires
        grid.clean(),
    ensures
        grid.rows_added(target).clean(),
    decreases target - grid.rows.len(),
{
    if grid.rows.len() >= target {
    } else if grid.scrollback.len() > 0 {
        let next = GridModel {
            rows: grid.rows.insert(0, grid.scrollback.last()),
            scrollback: grid.scrollback.drop_last(),
            pos: Pos { row: min_int(grid.pos.row + 1, u16::MAX as int) as u16, ..grid.pos },
            saved_pos: Pos {
                row: min_int(grid.saved_pos.row + 1, u16::MAX as int) as u16,
                ..grid.saved_pos
            },
            ..grid
        };
        assert(clean_row(grid.scrollback[grid.scrollback.len() - 1]));
        lemma_rows_inserted(grid.rows, 0, grid.scrollback.last());
        lemma_rows_added_clean(next, target);
    } else {
        lemma_blank_row(grid.size.cols as nat);
        lemma_rows_added_clean(
            GridModel { rows: grid.rows.push(grid.blank_row()), ..grid },
            target,
        );
    }
}

proof fn lemma_resized(grid: GridModel, size: Size)
    requires
        grid.clean(),
    ensures
        grid.resized(size).clean(),
{
    let after = grid.resized(size);
    assert forall|i: int| 0 <= i < after.rows.len() implies clean_row(#[trigger] after.rows[i]) by {
        if i < grid.rows.len() {
            assert(clean_row(grid.rows[i]));
            lemma_filled_up(grid.rows[i], size.cols as nat);
        } else {
            lemma_blank_row(size.cols as nat);
        }
    }
}

/// Whatever size a screen gets, with its lines wrapped anew or cut off, and however far it
/// is scrolled back, no control character gets into a cell.
pub proof fn law_resizing_keeps_screens_clean(screen: ScreenModel, size: Size, offset: int)
    requires
        screen.holds_no_controls(),
    ensures
        screen.resized(size).holds_no_controls(),
        screen.reflowed(size).holds_no_controls(),
        screen.with_active(screen.active().scrolled_back(offset)).holds_no_controls(),
{
    reveal(ScreenModel::holds_no_controls);
    let to = Size { rows: at_least_one(size.rows), cols: at_least_one(size.cols) };
    lemma_resized(screen.grid, size);
    lemma_resized(screen.alternate_grid, size);
    lemma_resized(screen.alternate_grid, to);
    let grid = screen.grid;
    if grid.rows.len() > 0 {
        lemma_with_columns_clean(grid, to.cols);
        let wrapped = if to.cols != grid.size.cols {
            grid.with_columns(to.cols)
        } else {
            grid
        };
        lemma_rows_dropped_clean(wrapped, to.rows as int);
        lemma_rows_added_clean(wrapped.rows_dropped(to.rows as int), to.rows as int);
    }
}

// What is read.

proof fn lemma_text_read(out: Seq<char>, cells: Seq<CellModel>, start: int, end: int)
    requires
        clean_cells(cells),
        0 <= start,
        start < end ==> end <= cells.len(),
    ensures
        clean_lines(out) ==> clean_lines(text_read(out, cells, start, end).out),
        clean_text(out) ==> clean_text(text_read(out, cells, start, end).out),
    decreases end - start,
{
    if start < end {
        lemma_text_read(out, cells, start, end - 1);
        assert(clean_text(cells[end - 1].text)) by {
            reveal(clean_cells);
        }
    }
}

/// The visible rows are some of those that there are.
proof fn lemma_visible_clean(grid: GridModel)
    requires
        grid.wf(),
        grid.clean(),
    ensures
        rows_clean(grid.visible()),
{
    let rows = grid.visible();
    let kept = grid.scrollback.len() as int;
    assert forall|i: int| 0 <= i < rows.len() implies clean_row(#[trigger] rows[i]) by {
        assert(rows_clean(grid.rows));
        assert(rows_clean(grid.scrollback));
    }
}

proof fn lemma_rows_text(rows: Seq<RowModel>, n: int, cols: int)
    requires
        rows_clean(rows),
        0 <= n <= rows.len(),
    ensures
        clean_lines(rows_text(Seq::empty(), rows, n, cols).0),
    decreases n,
{
    if n > 0 {
        lemma_rows_text(rows, n - 1, cols);
        let (before, _) = rows_text(Seq::empty(), rows, n - 1, cols);
        let cells = rows[n - 1].cells;
        assert(clean_row(rows[n - 1]));
        lemma_text_read(before, cells, 0, span_end(0, cols, cells.len() as int));
    }
}

proof fn lemma_line_breaks_trimmed(text: Seq<char>)
    requires
        clean_lines(text),
    ensures
        clean_lines(line_breaks_trimmed(text)),
    decreases text.len(),
{
    if text.len() > 0 && text.last() == '\n' {
        lemma_line_breaks_trimmed(text.drop_last());
    }
}

proof fn lemma_text_of_rows(
    rows: Seq<RowModel>,
    start_row: int,
    start_col: int,
    end_row: int,
    end_col: int,
    cols: int,
    n: int,
)
    requires
        rows_clean(rows),
        0 <= start_row,
        0 <= start_col,
        n <= rows.len(),
    ensures
        clean_lines(text_of_rows(rows, start_row, start_col, end_row, end_col, cols, n)),
    decreases n,
{
    if n > start_row && n > 0 {
        lemma_text_of_rows(rows, start_row, start_col, end_row, end_col, cols, n - 1);
        let out = text_of_rows(rows, start_row, start_col, end_row, end_col, cols, n - 1);
        let cells = rows[n - 1].cells;
        let len = cells.len() as int;
        assert(clean_row(rows[n - 1]));
        lemma_text_read(out, cells, 0, span_end(0, end_col, len));
        lemma_text_read(out, cells, 0, span_end(0, cols, len));
        lemma_text_read(out, cells, start_col, span_end(start_col, cols - start_col, len));
    }
}

/// The text of a screen is plain text: that of its rows holds no control characters, and
/// that of the whole screen, or of a part of it, none but the line breaks between rows. So
/// it carries no escape codes.
pub proof fn law_text_is_plain(
    screen: ScreenModel,
    start: int,
    width: int,
    start_row: int,
    start_col: int,
    end_row: int,
    end_col: int,
)
    requires
        screen.wf(),
        screen.holds_no_controls(),
        0 <= start,
        0 <= start_row,
        0 <= start_col,
    ensures
        clean_lines(screen.active().text(Seq::empty())),
        forall|i: int|
            0 <= i < screen.row_texts(start, width).len() ==> clean_text(
                #[trigger] screen.row_texts(start, width)[i],
            ),
        clean_lines(screen.text_between(start_row, start_col, end_row, end_col)),
{
    reveal(ScreenModel::holds_no_controls);
    let grid = screen.active();
    let rows = grid.visible();
    let cols = grid.size.cols as int;
    let n = rows.len() as int;
    lemma_visible_clean(grid);
    lemma_rows_text(rows, n, cols);
    lemma_line_breaks_trimmed(rows_text(Seq::empty(), rows, n, cols).0);
    assert forall|from: int, count: int, i: int| 0 <= from && 0 <= i < n implies clean_text(
        #[trigger] screen.row_texts(from, count)[i],
    ) by {
        let cells = rows[i].cells;
        assert(clean_row(rows[i]));
        lemma_text_read(Seq::empty(), cells, from, span_end(from, count, cells.len() as int));
    }
    lemma_text_of_rows(
        rows,
        start_row,
        start_col,
        end_row,
        end_col,
        cols,
        min_int(end_row + 1, n),
    );
}

} // verus!
