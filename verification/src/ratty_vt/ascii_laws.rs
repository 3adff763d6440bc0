//! Screens of ASCII text can be written out and drawn again.

use crate::ratty_vt::attrs::AttrsModel;
use crate::ratty_vt::cell::CellModel;
use crate::ratty_vt::codes::{codes_bytes, replayed, CodeModel};
use crate::ratty_vt::differences::{
    cursor_turnable, draws_first, ends_apart, goes_apart, law_differences_follow_screens,
    turnable_row, turnable_rows, turns_from_above, turns_wrapping, waits_behind,
};
use crate::ratty_vt::event::EventModel;
use crate::ratty_vt::grid::Size;
use crate::ratty_vt::grid_model::{
    filled_row_above, lemma_col_wrap, max_int, min_int, newest, row_cells_removed, GridModel,
};
use crate::ratty_vt::perform::{modes_run, param_or};
use crate::ratty_vt::redraw::{
    filled_end, joinable, lemma_filled_row_above, printable, redrawable, redrawable_row, retypes,
    shows_the_same, was_wide, wraps_apart,
};
use crate::ratty_vt::row::{other_half_cleared, RowModel};
use crate::ratty_vt::screen_model::{owner_col, row_drawn, ScreenModel};
use crate::ratty_vt::unicode::{is_ascii_text, stands_apart};
use crate::ratty_vt::wide::{whole, whole_at};
use vstd::prelude::*;

verus! {

/// Whether a cell is empty or shows a character of ASCII.
pub open spec fn plain_cell(cell: CellModel) -> bool {
    &&& !cell.wide
    &&& !cell.continuation
    &&& cell.text.len() == 0 || cell.text.len() == 1 && is_ascii_text(cell.text[0])
}

/// Whether a row holds ASCII text alone, and is full where it wraps.
#[verifier::opaque]
pub open spec fn plain_row(row: RowModel) -> bool {
    &&& forall|i: int| 0 <= i < row.cells.len() ==> plain_cell(#[trigger] row.cells[i])
    &&& row.wrapped ==> row.cells.len() > 0 && row.cells[row.cells.len() - 1].text.len() > 0
}

pub open spec fn rows_plain(rows: Seq<RowModel>) -> bool {
    forall|i: int| 0 <= i < rows.len() ==> plain_row(#[trigger] rows[i])
}

impl GridModel {
    /// Whether the scroll region has more than one row, where the grid does.
    pub open spec fn region_has_room(self) -> bool {
        self.size.rows > 1 ==> self.scroll_top < self.scroll_bottom
    }

    /// Whether the grid and its scrollback hold ASCII text alone.
    pub open spec fn plain(self) -> bool {
        rows_plain(self.rows) && rows_plain(self.scrollback) && self.region_has_room()
    }
}

impl ScreenModel {
    /// Whether the screen holds ASCII text alone.
    pub open spec fn plain(self) -> bool {
        self.grid.plain() && self.alternate_grid.plain()
    }

    /// Whether the screen holds ASCII text alone.
    #[verifier::opaque]
    pub open spec fn holds_ascii(self) -> bool {
        self.plain()
    }
}

proof fn lemma_blank_row(cols: nat)
    ensures
        plain_row(RowModel::blank(cols)),
{
    reveal(plain_row);
}

proof fn lemma_cleared_row(row: RowModel, attrs: AttrsModel)
    ensures
        plain_row(row.cleared(attrs)),
{
    reveal(plain_row);
}

proof fn lemma_erased_range(row: RowModel, from: int, to: int, attrs: AttrsModel)
    requires
        plain_row(row),
        0 <= from,
        to <= row.cells.len(),
    ensures
        plain_row(row.erased_range(from, to, attrs)),
        row.erased_range(from, to, attrs).cells.len() == row.cells.len(),
    decreases to - from,
{
    reveal(plain_row);
    if from < to {
        lemma_erased_range(row, from, to - 1, attrs);
        let before = row.erased_range(from, to - 1, attrs);
        let after = before.erased(to - 1, attrs);
        assert(plain_cell(before.cells[to - 1]));
        assert forall|i: int| 0 <= i < after.cells.len() implies plain_cell(
            #[trigger] after.cells[i],
        ) by {
            assert(plain_cell(before.cells[i]));
        }
    }
}

proof fn lemma_cells_removed(row: RowModel, col: int, count: int)
    requires
        plain_row(row),
        0 <= col,
        col + count <= row.cells.len(),
    ensures
        plain_row(row_cells_removed(row, col, count)),
        row_cells_removed(row, col, count).cells.len() == row.cells.len() - max_int(count, 0),
    decreases count,
{
    reveal(plain_row);
    if count > 0 {
        lemma_cells_removed(row, col, count - 1);
        let before = row_cells_removed(row, col, count - 1);
        let after = before.removed(col);
        assert(plain_cell(before.cells[col]));
        assert(other_half_cleared(before.cells, col) == before.cells);
        assert forall|i: int| 0 <= i < after.cells.len() implies plain_cell(
            #[trigger] after.cells[i],
        ) by {
            assert(plain_cell(before.cells[if i < col { i } else { i + 1 }]));
        }
    }
}

proof fn lemma_filled_up(row: RowModel, len: nat)
    requires
        plain_row(row),
    ensures
        plain_row(row.resized(len, CellModel::blank())),
{
    reveal(plain_row);
    let after = row.resized(len, CellModel::blank());
    assert forall|i: int| 0 <= i < after.cells.len() implies plain_cell(#[trigger] after.cells[i]) by {
        if i < row.cells.len() {
            assert(plain_cell(row.cells[i]));
        }
    }
}

proof fn lemma_inserted(grid: GridModel, count: int)
    requires
        grid.wf(),
        grid.allocated(),
        grid.plain(),
        count >= 0,
    ensures
        grid.cells_inserted(count).plain(),
{
    reveal(plain_row);
    let row = grid.current_row();
    assert(plain_row(row));
    let col = grid.pos.col as int;
    let cols = grid.size.cols as int;
    if col < cols {
        assert(plain_cell(row.cells[col]));
    }
    let after = grid.cells_inserted(count).rows[grid.pos.row as int];
    assert forall|i: int| 0 <= i < after.cells.len() implies plain_cell(#[trigger] after.cells[i]) by {
        let from = if i < col { i } else { i - count };
        if 0 <= from < cols {
            assert(plain_cell(row.cells[from]));
        }
    }
    lemma_with_row(grid, grid.pos.row as int, after);
}

proof fn lemma_scrolled_up_once(grid: GridModel)
    requires
        grid.plain(),
        grid.scroll_top <= grid.scroll_bottom,
        grid.scroll_bottom < grid.rows.len(),
    ensures
        grid.scrolled_up_once().plain(),
        grid.scrolled_up_once().rows.len() == grid.rows.len(),
{
    lemma_blank_row(grid.size.cols as nat);
    let inserted = grid.rows.insert(grid.scroll_bottom + 1, grid.blank_row());
    assert(rows_plain(inserted)) by {
        assert forall|i: int| 0 <= i < inserted.len() implies plain_row(#[trigger] inserted[i]) by {
            if i < grid.scroll_bottom + 1 {
                assert(inserted[i] == grid.rows[i]);
            } else if i > grid.scroll_bottom + 1 {
                assert(inserted[i] == grid.rows[i - 1]);
            }
        }
    }
    lemma_rows_removed(inserted, grid.scroll_top as int);
    let first = grid.rows[grid.scroll_top as int];
    assert(plain_row(first));
    let longer = grid.scrollback.push(first);
    assert(rows_plain(longer));
    lemma_newest(longer, grid.scrollback_len as int);
}

proof fn lemma_rows_removed(rows: Seq<RowModel>, at: int)
    requires
        rows_plain(rows),
        0 <= at < rows.len(),
    ensures
        rows_plain(rows.remove(at)),
{
    let after = rows.remove(at);
    assert forall|i: int| 0 <= i < after.len() implies plain_row(#[trigger] after[i]) by {
        if i < at {
            assert(after[i] == rows[i]);
        } else {
            assert(after[i] == rows[i + 1]);
        }
    }
}

proof fn lemma_rows_inserted(rows: Seq<RowModel>, at: int, row: RowModel)
    requires
        rows_plain(rows),
        plain_row(row),
        0 <= at <= rows.len(),
    ensures
        rows_plain(rows.insert(at, row)),
{
    let after = rows.insert(at, row);
    assert forall|i: int| 0 <= i < after.len() implies plain_row(#[trigger] after[i]) by {
        if i < at {
            assert(after[i] == rows[i]);
        } else if i > at {
            assert(after[i] == rows[i - 1]);
        }
    }
}

proof fn lemma_newest(rows: Seq<RowModel>, n: int)
    requires
        rows_plain(rows),
        0 <= n,
    ensures
        rows_plain(newest(rows, n)),
{
    let after = newest(rows, n);
    assert forall|i: int| 0 <= i < after.len() implies plain_row(#[trigger] after[i]) by {
        if rows.len() > n {
            assert(after[i] == rows[rows.len() - n + i]);
        }
    }
}

proof fn lemma_scrolled_up_by(grid: GridModel, count: int)
    requires
        grid.plain(),
        grid.scroll_top <= grid.scroll_bottom,
        grid.scroll_bottom < grid.rows.len(),
    ensures
        grid.scrolled_up_by(count).plain(),
        grid.scrolled_up_by(count).rows.len() == grid.rows.len(),
        grid.scrolled_up_by(count).scroll_top == grid.scroll_top,
        grid.scrolled_up_by(count).scroll_bottom == grid.scroll_bottom,
        grid.scrolled_up_by(count).size == grid.size,
    decreases count,
{
    if count > 0 {
        lemma_scrolled_up_by(grid, count - 1);
        lemma_scrolled_up_once(grid.scrolled_up_by(count - 1));
    }
}

proof fn lemma_lines_inserted(grid: GridModel, at: int, count: int)
    requires
        grid.plain(),
        grid.scroll_bottom < grid.rows.len(),
        0 <= at < grid.rows.len(),
    ensures
        grid.lines_inserted_at(at, count).plain(),
        grid.lines_inserted_at(at, count).rows.len() == grid.rows.len(),
        grid.lines_inserted_at(at, count).scroll_bottom == grid.scroll_bottom,
        grid.lines_inserted_at(at, count).scroll_top == grid.scroll_top,
        grid.lines_inserted_at(at, count).size == grid.size,
    decreases count,
{
    reveal(plain_row);
    if count > 0 {
        lemma_lines_inserted(grid, at, count - 1);
        let before = grid.lines_inserted_at(at, count - 1);
        lemma_blank_row(before.size.cols as nat);
        lemma_rows_removed(before.rows, before.scroll_bottom as int);
        let removed = before.rows.remove(before.scroll_bottom as int);
        lemma_rows_inserted(removed, at, before.blank_row());
        let inserted = removed.insert(at, before.blank_row());
        assert(plain_row(inserted[before.scroll_bottom as int]));
        let after = before.line_inserted(at);
        assert forall|i: int| 0 <= i < after.rows.len() implies plain_row(#[trigger] after.rows[i]) by {
            assert(plain_row(inserted[i]));
            assert(after.rows[i].cells == inserted[i].cells);
        }
    }
}

proof fn lemma_lines_deleted(grid: GridModel, count: int)
    requires
        grid.plain(),
        grid.scroll_bottom < grid.rows.len(),
        grid.pos.row < grid.rows.len(),
    ensures
        grid.lines_deleted_by(count).plain(),
        grid.lines_deleted_by(count).rows.len() == grid.rows.len(),
        grid.lines_deleted_by(count).scroll_bottom == grid.scroll_bottom,
        grid.lines_deleted_by(count).scroll_top == grid.scroll_top,
        grid.lines_deleted_by(count).size == grid.size,
        grid.lines_deleted_by(count).pos == grid.pos,
    decreases count,
{
    if count > 0 {
        lemma_lines_deleted(grid, count - 1);
        let before = grid.lines_deleted_by(count - 1);
        lemma_blank_row(before.size.cols as nat);
        lemma_rows_inserted(before.rows, before.scroll_bottom + 1, before.blank_row());
        lemma_rows_removed(
            before.rows.insert(before.scroll_bottom + 1, before.blank_row()),
            before.pos.row as int,
        );
    }
}

proof fn lemma_with_row(grid: GridModel, i: int, row: RowModel)
    requires
        grid.plain(),
        plain_row(row),
        0 <= i < grid.rows.len(),
    ensures
        grid.with_row(i, row).plain(),
{
    let after = grid.with_row(i, row);
    assert forall|k: int| 0 <= k < after.rows.len() implies plain_row(#[trigger] after.rows[k]) by {
        if k != i {
            assert(after.rows[k] == grid.rows[k]);
        }
    }
}

proof fn lemma_row_inc_scroll(grid: GridModel, count: int)
    requires
        grid.wf(),
        grid.allocated(),
        grid.plain(),
        count >= 0,
    ensures
        grid.row_inc_scroll(count).0.plain(),
        grid.row_inc_scroll(count).0.rows.len() == grid.rows.len(),
{
    let (moved, lines) = grid.row_down(count).clamp_bottom(grid.in_scroll_region());
    lemma_scrolled_up_by(moved, min_int(lines, moved.size.rows - moved.scroll_top));
}

proof fn lemma_erased_cols(grid: GridModel, from: int, to: int, attrs: AttrsModel)
    requires
        grid.wf(),
        grid.allocated(),
        grid.plain(),
        0 <= from,
        to <= grid.size.cols,
    ensures
        grid.erased_cols(from, to, attrs).plain(),
{
    assert(plain_row(grid.current_row()));
    lemma_erased_range(grid.current_row(), from, to, attrs);
    lemma_with_row(
        grid,
        grid.pos.row as int,
        grid.current_row().erased_range(from, to, attrs),
    );
}

/// Rows of which some were cleared.
proof fn lemma_some_cleared(before: GridModel, after: GridModel, attrs: AttrsModel)
    requires
        before.plain(),
        after == (GridModel { rows: after.rows, ..before }),
        after.rows.len() == before.rows.len(),
        forall|i: int|
            0 <= i < after.rows.len() ==> (#[trigger] after.rows[i]) == before.rows[i]
                || after.rows[i] == before.rows[i].cleared(attrs),
    ensures
        after.plain(),
{
    assert forall|i: int| 0 <= i < after.rows.len() implies plain_row(#[trigger] after.rows[i]) by {
        lemma_cleared_row(before.rows[i], attrs);
        assert(plain_row(before.rows[i]));
    }
}

proof fn lemma_display_erased(screen: ScreenModel, mode: u16)
    requires
        screen.wf(),
        screen.plain(),
    ensures
        screen.display_erased(mode) matches Some(after) ==> after.plain(),
        screen.line_erased(mode) matches Some(after) ==> after.plain(),
{
    reveal(ScreenModel::display_erased);
    reveal(ScreenModel::line_erased);
    let grid = screen.active();
    let attrs = screen.attrs;
    lemma_some_cleared(grid, grid.erased_all(attrs), attrs);
    lemma_cleared_row(grid.current_row(), attrs);
    lemma_erased_cols(grid, grid.pos.col as int, grid.size.cols as int, attrs);
    lemma_erased_cols(grid, 0, min_int(grid.pos.col as int, grid.size.cols - 1) + 1, attrs);
    let below = GridModel {
        rows: Seq::new(
            grid.rows.len(),
            |i: int|
                if i > grid.pos.row {
                    grid.rows[i].cleared(attrs)
                } else {
                    grid.rows[i]
                },
        ),
        ..grid
    };
    lemma_some_cleared(grid, below, attrs);
    lemma_erased_cols(below, below.pos.col as int, below.size.cols as int, attrs);
    let above = GridModel {
        rows: Seq::new(
            grid.rows.len(),
            |i: int|
                if i < grid.pos.row {
                    grid.rows[i].cleared(attrs)
                } else {
                    grid.rows[i]
                },
        ),
        ..grid
    };
    lemma_some_cleared(grid, above, attrs);
    lemma_erased_cols(above, 0, min_int(above.pos.col as int, above.size.cols - 1) + 1, attrs);
}

proof fn lemma_cells_deleted(grid: GridModel, count: int)
    requires
        grid.wf(),
        grid.allocated(),
        grid.plain(),
        count >= 0,
    ensures
        grid.cells_deleted(count).plain(),
{
    assert(plain_row(grid.current_row()));
    let n = min_int(count, grid.size.cols - grid.pos.col);
    lemma_cells_removed(grid.current_row(), grid.pos.col as int, n);
    let row = row_cells_removed(grid.current_row(), grid.pos.col as int, n);
    lemma_filled_up(row, grid.size.cols as nat);
    lemma_with_row(
        grid,
        grid.pos.row as int,
        row.resized(grid.size.cols as nat, CellModel::blank()),
    );
}

/// A grid whose rows are all blank.
proof fn lemma_blank_grid(grid: GridModel)
    requires
        rows_plain(grid.scrollback),
    ensures
        grid.cleared().plain(),
        grid.plain() ==> grid.with_rows_allocated().plain(),
{
    lemma_blank_row(grid.size.cols as nat);
    let allocated = grid.with_rows_allocated();
    assert forall|i: int| 0 <= i < allocated.rows.len() && grid.rows.len() == 0 implies plain_row(#[trigger] allocated.rows[i]) by {}
    let cleared = grid.cleared();
    assert forall|i: int| 0 <= i < cleared.rows.len() implies plain_row(#[trigger] cleared.rows[i]) by {
        lemma_cleared_row(grid.rows[i], AttrsModel::plain());
    }
}

proof fn lemma_alternate_entered(screen: ScreenModel)
    requires
        screen.plain(),
    ensures
        screen.alternate_entered().plain(),
{
    let left = screen.with_active(screen.active().scrolled_back(0));
    assert(left.plain());
    lemma_blank_grid(left.alternate_grid);
}

proof fn lemma_alternate_opened(screen: ScreenModel)
    requires
        screen.plain(),
    ensures
        screen.alternate_opened().plain(),
{
    let saved = screen.cursor_saved();
    assert(saved.plain());
    lemma_blank_grid(saved.alternate_grid);
    let cleared = ScreenModel { alternate_grid: saved.alternate_grid.cleared(), ..saved };
    assert(cleared.plain());
    lemma_alternate_entered(cleared);
}

/// A screen that differs from another in what is no row.
proof fn lemma_same_rows(before: ScreenModel, after: ScreenModel)
    requires
        before.plain(),
        after.grid.rows == before.grid.rows,
        after.grid.scrollback == before.grid.scrollback,
        after.alternate_grid.rows == before.alternate_grid.rows,
        after.alternate_grid.scrollback == before.alternate_grid.scrollback,
        after.grid.region_has_room(),
        after.alternate_grid.region_has_room(),
    ensures
        after.plain(),
{
}

proof fn lemma_mode_set(screen: ScreenModel, param: Seq<u16>)
    requires
        screen.plain(),
    ensures
        screen.private_mode_set(param) matches Some(after) ==> after.plain(),
{
    reveal(ScreenModel::private_mode_set);
    if let Some(after) = screen.private_mode_set(param) {
        if param[0] == 47 {
            lemma_alternate_entered(screen);
        } else if param[0] == 1049 {
            lemma_alternate_opened(screen);
        } else {
            lemma_same_rows(screen, after);
        }
    }
}

proof fn lemma_mode_reset(screen: ScreenModel, param: Seq<u16>)
    requires
        screen.plain(),
    ensures
        screen.private_mode_reset(param) matches Some(after) ==> after.plain(),
{
    reveal(ScreenModel::private_mode_reset);
    if let Some(after) = screen.private_mode_reset(param) {
        lemma_same_rows(screen, after);
    }
}

proof fn lemma_modes_run(screen: ScreenModel, params: Seq<Seq<u16>>, i: int, set: bool)
    requires
        screen.plain(),
    ensures
        modes_run(screen, params, i, set).0.plain(),
    decreases params.len() - i,
{
    if 0 <= i < params.len() {
        lemma_mode_set(screen, params[i]);
        lemma_mode_reset(screen, params[i]);
        let changed = if set {
            screen.private_mode_set(params[i])
        } else {
            screen.private_mode_reset(params[i])
        };
        if let Some(next) = changed {
            lemma_modes_run(next, params, i + 1, set);
        }
    }
}

#[verifier::spinoff_prover]
#[verifier::rlimit(40)]
proof fn lemma_csi_plain(screen: ScreenModel, params: Seq<Seq<u16>>, c: char)
    requires
        screen.wf(),
        screen.plain(),
    ensures
        screen.csi_plain(params, c) matches Some(after) ==> after.plain(),
{
    reveal(ScreenModel::csi_plain);
    let grid = screen.active();
    let count = param_or(params, 0, 1) as int;
    if c == '@' {
        lemma_inserted(grid, count);
    } else if c == 'J' || c == 'K' {
        lemma_display_erased(screen, param_or(params, 0, 0));
    } else if c == 'L' {
        lemma_lines_inserted(grid, grid.pos.row as int, count);
    } else if c == 'M' {
        lemma_lines_deleted(grid, min_int(count, grid.size.rows - grid.pos.row));
    } else if c == 'P' {
        lemma_cells_deleted(grid, count);
    } else if c == 'S' {
        lemma_scrolled_up_by(grid, min_int(count, grid.size.rows - grid.scroll_top));
    } else if c == 'T' {
        lemma_lines_inserted(grid, grid.scroll_top as int, count);
    } else if c == 'X' {
        lemma_erased_cols(
            grid,
            grid.pos.col as int,
            min_int(min_int(grid.pos.col + count, u16::MAX as int), grid.size.cols as int),
            screen.attrs,
        );
    }
}

proof fn lemma_executed(screen: ScreenModel, b: u8)
    requires
        screen.wf(),
        screen.plain(),
    ensures
        screen.executed(b).screen.plain(),
{
    if 10 <= b <= 12 {
        lemma_row_inc_scroll(screen.active(), 1);
    } else {
        lemma_same_rows(screen, screen.executed(b).screen);
    }
}

proof fn lemma_escaped(screen: ScreenModel, intermediates: Seq<u8>, b: u8)
    requires
        screen.wf(),
        screen.plain(),
    ensures
        screen.escaped(intermediates, b).screen.plain(),
{
    if intermediates.len() == 0 && b == 'M' as u8 {
        let grid = screen.active();
        let (moved, lines) = grid.row_up(1).clamp_top(grid.in_scroll_region());
        lemma_lines_inserted(
            moved,
            moved.scroll_top as int,
            lines + max_int(1 - grid.pos.row, 0),
        );
    } else if intermediates.len() == 0 && b == 'c' as u8 {
        lemma_fresh(screen.grid.size, screen.grid.scrollback_len);
    } else {
        lemma_same_rows(screen, screen.escaped(intermediates, b).screen);
    }
}

proof fn lemma_controlled(
    screen: ScreenModel,
    params: Seq<Seq<u16>>,
    intermediates: Seq<u8>,
    c: char,
    from: int,
)
    requires
        screen.wf(),
        screen.plain(),
    ensures
        screen.controlled(params, intermediates, c, from).screen.plain(),
{
    reveal(ScreenModel::csi_keyboard);
    if intermediates.len() == 0 {
        if c == 'm' {
            lemma_same_rows(screen, screen.controlled(params, intermediates, c, from).screen);
        } else {
            lemma_csi_plain(screen, params, c);
        }
    } else if intermediates[0] == '?' as u8 && (c == 'h' || c == 'l') {
        lemma_modes_run(screen, params, from, c == 'h');
    } else if intermediates[0] != '?' as u8 {
        lemma_same_rows(screen, screen.controlled(params, intermediates, c, from).screen);
    } else {
        lemma_display_erased(screen, param_or(params, 0, 0));
    }
}

/// A character of ASCII drawn.
proof fn lemma_drawn(row: RowModel, col: int, c: char, attrs: AttrsModel)
    requires
        plain_row(row),
        0 <= col < row.cells.len(),
        is_ascii_text(c),
    ensures
        plain_row(row_drawn(row, col, c, false, attrs)),
{
    reveal(plain_row);
    let after = row_drawn(row, col, c, false, attrs);
    assert(plain_cell(row.cells[col]));
    assert forall|i: int| 0 <= i < after.cells.len() implies plain_cell(#[trigger] after.cells[i]) by {
        assert(plain_cell(row.cells[i]));
    }
}

/// The row that text wraps from is the one that was full.
proof fn lemma_left_row(grid: GridModel)
    requires
        grid.wf(),
        grid.allocated(),
        grid.region_has_room(),
    ensures
        ({
            let (moved, scrolled) = grid.row_inc_scroll(1);
            let left = max_int(grid.pos.row - scrolled, 0);
            &&& 0 <= left < grid.rows.len()
            &&& moved.rows.len() == grid.rows.len()
            &&& left + 1 == moved.pos.row ==> moved.rows[left] == grid.rows[grid.pos.row as int]
        }),
{
    let (moved, lines) = grid.row_down(1).clamp_bottom(grid.in_scroll_region());
    if grid.in_scroll_region() {
        assert(0 <= lines <= 1);
        assert(moved.scrolled_up_by(0) == moved);
        if lines == 1 {
            assert(moved.scrolled_up(1) == moved.scrolled_up_by(0).scrolled_up_once());
            let inserted = grid.rows.insert(grid.scroll_bottom + 1, grid.blank_row());
            assert(inserted[grid.scroll_bottom as int] == grid.rows[grid.scroll_bottom as int]);
        } else {
            assert(moved.scrolled_up(0) == moved.scrolled_up_by(0));
        }
    }
}

proof fn lemma_typed(grid: GridModel, c: char, attrs: AttrsModel, joins: bool)
    requires
        grid.wf(),
        grid.allocated(),
        grid.plain(),
        is_ascii_text(c),
    ensures
        grid.typed(c, 1, attrs, joins).plain(),
{
    reveal(plain_row);
    let cells = grid.current_row().cells;
    assert(plain_row(grid.current_row()));
    if grid.pos.col > 0 {
        let cell = cells[owner_col(cells, grid.pos.col - 1)];
        assert(plain_cell(cells[grid.pos.col - 1]));
        assert(plain_cell(cell));
        assert(cell.text.len() > 0 ==> stands_apart(cell.text, c));
    }
    assert(!grid.extends_cluster(c));
    let last = cells[grid.size.cols - 1];
    assert(plain_cell(last));
    let wrap = grid.pos.col > grid.size.cols - 1 && (last.text.len() > 0 || last.continuation);
    let ready = grid.col_wrap(1, wrap);
    if grid.pos.col > grid.size.cols - 1 {
        let start = grid.at(grid.pos.row as int, 0);
        lemma_row_inc_scroll(start, 1);
        lemma_left_row(start);
        let (moved, scrolled) = start.row_inc_scroll(1);
        let left = max_int(grid.pos.row - scrolled, 0);
        let row = moved.rows[left].with_wrap(wrap && left + 1 == moved.pos.row);
        assert(plain_row(moved.rows[left]));
        assert(plain_row(row));
        lemma_with_row(moved, left, row);
    }
    lemma_col_wrap(grid, 1, wrap);
    assert(plain_row(ready.current_row()));
    lemma_drawn(ready.current_row(), ready.pos.col as int, c, attrs);
    lemma_with_row(
        ready,
        ready.pos.row as int,
        row_drawn(ready.current_row(), ready.pos.col as int, c, false, attrs),
    );
}

proof fn lemma_fresh(size: Size, scrollback_len: usize)
    ensures
        ScreenModel::fresh(size, scrollback_len).plain(),
{
    lemma_blank_grid(GridModel::fresh(size, scrollback_len));
}

/// Whether an event prints ASCII text, or nothing.
pub open spec fn is_plain_event(event: EventModel) -> bool {
    event matches EventModel::Print(c) ==> is_ascii_text(c)
}

/// Whatever ASCII text and control sequences an application sends, the screen holds ASCII
/// text alone.
pub proof fn law_plain_output_keeps_screens_plain(screen: ScreenModel, event: EventModel, from: int)
    requires
        screen.wf(),
        screen.holds_ascii(),
        is_plain_event(event),
    ensures
        screen.performed(event, from).screen.holds_ascii(),
{
    reveal(ScreenModel::holds_ascii);
    reveal(ScreenModel::performed);
    let screen = if ScreenModel::goes_on(event) { screen } else { screen.parted() };
    match event {
        EventModel::Print(c) => {
            lemma_typed(screen.active(), c, screen.attrs, screen.joins);
        },
        EventModel::Execute(b) => {
            lemma_executed(screen, b);
        },
        EventModel::Esc(intermediates, b) => {
            lemma_escaped(screen, intermediates, b);
        },
        EventModel::Csi(params, intermediates, c) => {
            lemma_controlled(screen, params, intermediates, c, from);
        },
        EventModel::Osc(params) => {
            lemma_same_rows(screen, screen.commanded(params, from).screen);
        },
    }
}

/// A screen of ASCII text that is not scrolled back and whose last row does not wrap can be
/// written out and drawn again.
pub proof fn law_plain_screens_are_redrawable(screen: ScreenModel)
    requires
        screen.wf(),
        screen.holds_ascii(),
        screen.active().scrollback_offset == 0,
        !screen.active().rows.last().wrapped,
    ensures
        redrawable(screen),
{
    reveal(ScreenModel::holds_ascii);
    reveal(plain_row);
    let grid = screen.active();
    let rows = grid.visible();
    let cols = grid.size.cols as int;
    assert(rows =~= grid.rows);
    assert forall|i: int| 0 <= i < rows.len() implies redrawable_row(#[trigger] rows[i].cells, cols) by {
        assert(plain_row(grid.rows[i]));
        lemma_plain_row(grid.rows[i], cols);
    }
    assert forall|i: int| 0 <= i < rows.len() - 1 && #[trigger] rows[i].wrapped implies wraps_apart(
        rows[i].cells,
        rows[i + 1].cells[0],
    ) by {
        assert(plain_row(grid.rows[i]));
        assert(plain_row(grid.rows[i + 1]));
        assert(plain_cell(rows[i].cells[cols - 1]));
        assert(plain_cell(rows[i + 1].cells[0]));
    }
    assert(plain_row(grid.current_row()));
    if cols >= 2 {
        let cells = grid.current_row().cells;
        assert(plain_cell(cells[cols - 2]));
        assert(plain_cell(cells[owner_col(cells, cols - 2)]));
    }
}

proof fn lemma_plain_row(row: RowModel, cols: int)
    requires
        plain_row(row),
        row.cells.len() == cols,
    ensures
        redrawable_row(row.cells, cols),
{
    reveal(plain_row);
    let cells = row.cells;
    assert(whole(cells)) by {
        reveal(whole);
        assert forall|i: int| 0 <= i < cells.len() implies #[trigger] whole_at(cells, i) by {
            assert(plain_cell(cells[i]));
        }
    }
    assert forall|j: int| 0 <= j < cols implies #[trigger] retypes(cells[j], j, cols) by {
        assert(plain_cell(cells[j]));
        if cells[j].text.len() > 0 {
            assert(printable(cells[j].text[0]));
        }
    }
    assert forall|j: int| 0 <= j < cols - 1 && !cells[j].wide implies !(#[trigger] was_wide(
        cells[j].text,
        cells[j].text.len() as int,
        false,
    )) by {
        assert(plain_cell(cells[j]));
    }
}

/// Two characters of ASCII never join.
proof fn lemma_plain_cells_apart(cell: CellModel, ch: char)
    requires
        plain_cell(cell),
        is_ascii_text(ch),
    ensures
        !joinable(cell, ch),
{
    assert(cell.text.len() > 0 ==> stands_apart(cell.text, ch));
}

/// A row of ASCII text can be turned into another.
proof fn lemma_plain_row_turns(row: RowModel, shown: RowModel, cols: int)
    requires
        plain_row(row),
        plain_row(shown),
        row.cells.len() == cols,
        shown.cells.len() == cols,
        cols > 0,
    ensures
        turnable_row(row.cells, shown.cells, cols),
        row.wrapped != shown.wrapped ==> turns_wrapping(row.cells, shown.cells, row.wrapped),
        row.wrapped ==> row.cells[cols - 1].text.len() > 0,
{
    reveal(plain_row);
    let cells = row.cells;
    lemma_plain_row(row, cols);
    lemma_plain_row(shown, cols);
    assert forall|j: int| 0 <= j < cols implies !(#[trigger] cells[j]).wide && !(was_wide(
        cells[j].text,
        cells[j].text.len() as int,
        false,
    )) by {
        assert(plain_cell(cells[j]));
    }
    assert forall|j: int| 0 <= j < cols implies !(#[trigger] shown.cells[j]).continuation by {
        assert(plain_cell(shown.cells[j]));
    }
    let end = cells[cols - 1];
    assert(plain_cell(end));
    assert(plain_cell(shown.cells[cols - 1]));
    if cols > 1 && end.text.len() > 0 {
        assert(plain_cell(cells[cols - 2]));
        lemma_plain_cells_apart(cells[cols - 2], end.text[0]);
    }
}

/// So can one into which another one wraps.
proof fn lemma_plain_row_turns_from_above(
    above: RowModel,
    row: RowModel,
    shown: RowModel,
    cols: int,
    starts: bool,
    waits: bool,
)
    requires
        plain_row(above),
        plain_row(row),
        plain_row(shown),
        above.wrapped,
        above.cells.len() == cols,
        row.cells.len() == cols,
        shown.cells.len() == cols,
        cols > 0,
        waits ==> draws_first(row.cells, shown.cells),
    ensures
        turns_from_above(above.cells, row.cells, shown.cells, starts, waits),
{
    reveal(plain_row);
    let first = row.cells[0];
    let next = if first.text.len() > 0 { first.text[0] } else { ' ' };
    assert(plain_cell(first));
    assert(plain_cell(above.cells[cols - 1]));
    lemma_plain_cells_apart(above.cells[cols - 1], next);
    assert(!was_wide(first.text, first.text.len() as int, false));
}

/// Between two screens of ASCII text, what is written out for the one and then for the
/// difference to the other draws the other on a new screen. Left out are screens that are
/// scrolled back or whose last row wraps, and rows on which something is erased while the
/// cursor still waits behind the row above, from where blanks are written.
pub proof fn law_differences_follow_plain_screens(
    screen: ScreenModel,
    prev: ScreenModel,
    scrollback_len: usize,
) -> (codes: (Seq<CodeModel>, Seq<CodeModel>))
    requires
        screen.wf(),
        prev.wf(),
        screen.size() == prev.size(),
        screen.holds_ascii(),
        prev.holds_ascii(),
        screen.active().scrollback_offset == 0,
        prev.active().scrollback_offset == 0,
        !screen.active().rows.last().wrapped,
        !prev.active().rows.last().wrapped,
        forall|i: int|
            0 < i < screen.size().rows && screen.active().rows[i - 1].wrapped && waits_behind(
                screen.active().rows,
                prev.active().rows,
                i - 1,
                prev.active().pos,
                screen.size().cols as int,
            ) ==> draws_first((#[trigger] screen.active().rows[i]).cells, prev.active().rows[i].cells),
    ensures
        codes_bytes(codes.0) == prev.contents_bytes(Seq::empty()),
        codes_bytes(codes.1) == screen.diff_bytes(Seq::empty(), prev),
        shows_the_same(
            replayed(replayed(ScreenModel::fresh(prev.size(), scrollback_len), codes.0), codes.1),
            screen,
        ),
{
    let rows = screen.active().rows;
    let shown = prev.active().rows;
    let cols = screen.size().cols as int;
    let pos = prev.active().pos;
    law_plain_screens_are_redrawable(prev);
    assert(screen.active().visible() =~= rows);
    assert(prev.active().visible() =~= shown);
    reveal(ScreenModel::holds_ascii);
    assert forall|i: int| 0 <= i < rows.len() implies plain_row(#[trigger] rows[i]) && plain_row(
        shown[i],
    ) by {}
    assert forall|i: int| 0 <= i < rows.len() implies turnable_row(
        #[trigger] rows[i].cells,
        shown[i].cells,
        cols,
    ) by {
        lemma_plain_row_turns(rows[i], shown[i], cols);
    }
    assert forall|i: int| 0 < i < rows.len() && rows[i - 1].wrapped implies turns_from_above(
        rows[i - 1].cells,
        #[trigger] rows[i].cells,
        shown[i].cells,
        !shown[i - 1].wrapped,
        waits_behind(rows, shown, i - 1, pos, cols),
    ) by {
        assert(plain_row(rows[i - 1]));
        lemma_plain_row_turns_from_above(
            rows[i - 1],
            rows[i],
            shown[i],
            cols,
            !shown[i - 1].wrapped,
            waits_behind(rows, shown, i - 1, pos, cols),
        );
    }
    assert forall|i: int|
        0 <= i < rows.len() && (#[trigger] rows[i]).wrapped != shown[i].wrapped implies turns_wrapping(
        rows[i].cells,
        shown[i].cells,
        rows[i].wrapped,
    ) by {
        lemma_plain_row_turns(rows[i], shown[i], cols);
    }
    assert(turnable_rows(rows, shown, pos, cols)) by {
        reveal(plain_row);
        assert forall|i: int, j: int| 0 <= i < rows.len() && 0 <= j < cols implies plain_cell(
            #[trigger] rows[i].cells[j],
        ) && plain_cell(shown[i].cells[j]) by {
            assert(plain_row(rows[i]));
            assert(plain_row(shown[i]));
        }
    }
    lemma_plain_cursor_turns(screen);
    lemma_plain_goes_apart(rows[pos.row as int], shown[pos.row as int], pos.col as int);
    law_differences_follow_screens(screen, prev, scrollback_len)
}

proof fn lemma_plain_goes_apart(row: RowModel, shown: RowModel, col: int)
    requires
        plain_row(row),
        plain_row(shown),
        row.cells.len() == shown.cells.len(),
        0 <= col,
    ensures
        goes_apart(col, row.cells, shown.cells),
{
    reveal(plain_row);
    if 0 < col < row.cells.len() && row.cells[col].text.len() > 0 {
        assert(plain_cell(row.cells[col]));
        assert(plain_cell(shown.cells[col - 1]));
        lemma_plain_cells_apart(shown.cells[col - 1], row.cells[col].text[0]);
    }
}

proof fn lemma_plain_ends_apart(row: RowModel)
    requires
        plain_row(row),
        row.cells.len() > 0,
    ensures
        filled_end(row.cells) ==> ends_apart(row.cells),
        row.cells.len() >= 2 ==> !joinable(
            row.cells[owner_col(row.cells, row.cells.len() - 2)],
            ' ',
        ),
{
    reveal(plain_row);
    let cols = row.cells.len();
    assert(plain_cell(row.cells[cols - 1]));
    if cols >= 2 {
        assert(plain_cell(row.cells[cols - 2]));
        lemma_plain_cells_apart(row.cells[cols - 2], ' ');
        if row.cells[cols - 1].text.len() > 0 {
            lemma_plain_cells_apart(row.cells[cols - 2], row.cells[cols - 1].text[0]);
        }
    }
}

proof fn lemma_plain_cursor_turns(screen: ScreenModel)
    requires
        screen.wf(),
        screen.plain(),
        screen.active().scrollback_offset == 0,
    ensures
        cursor_turnable(screen.active()),
{
    let grid = screen.active();
    assert(plain_row(grid.current_row()));
    lemma_plain_ends_apart(grid.current_row());
    lemma_filled_row_above(grid.rows, grid.pos.row as int);
    if let Some(i) = filled_row_above(grid.rows, grid.pos.row as int) {
        assert(plain_row(grid.rows[i]));
        lemma_plain_ends_apart(grid.rows[i]);
    }
}

/// A new screen holds no text.
pub proof fn law_new_screens_are_plain(size: Size, scrollback_len: usize)
    ensures
        ScreenModel::fresh(size, scrollback_len).holds_ascii(),
{
    reveal(ScreenModel::holds_ascii);
    lemma_fresh(size, scrollback_len);
}

} // verus!
