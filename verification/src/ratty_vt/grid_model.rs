//! What a grid holds and what its operations make of it.

use crate::ratty_vt::attrs::{attrs_diff, AttrsModel};
use crate::ratty_vt::cell::CellModel;
use crate::ratty_vt::grid::{Pos, Size};
use crate::ratty_vt::row::{last_glyph_col, row_diff, row_formatted, row_text, RowModel};
use crate::ratty_vt::term;
use vstd::prelude::*;
use vstd::utf8::encode_utf8;

verus! {

/// A grid: the screen rows, the rows that scrolled off it, the cursor and the
/// scroll region.
pub struct GridModel {
    pub size: Size,
    pub pos: Pos,
    pub saved_pos: Pos,
    pub rows: Seq<RowModel>,
    pub scroll_top: u16,
    pub scroll_bottom: u16,
    pub origin_mode: bool,
    pub saved_origin_mode: bool,
    pub scrollback: Seq<RowModel>,
    pub scrollback_len: usize,
    pub scrollback_offset: usize,
}

pub open spec fn min_int(a: int, b: int) -> int {
    if a < b {
        a
    } else {
        b
    }
}

pub open spec fn max_int(a: int, b: int) -> int {
    if a < b {
        b
    } else {
        a
    }
}

/// A count of one, where there is none.
pub open spec fn at_least_one(n: u16) -> u16 {
    if n == 0 {
        1
    } else {
        n
    }
}

/// The last `n` of some rows.
pub open spec fn newest(rows: Seq<RowModel>, n: int) -> Seq<RowModel> {
    if rows.len() > n {
        rows.subrange(rows.len() - n, rows.len() as int)
    } else {
        rows
    }
}

/// A row of the scrollback: at least one column wide, maybe wider or narrower
/// than the grid has become.
pub open spec fn history_fits(row: RowModel) -> bool {
    0 < row.cells.len() <= u16::MAX
}

impl GridModel {
    pub open spec fn wf(self) -> bool {
        &&& self.size.rows > 0
        &&& self.size.cols > 0
        &&& self.rows.len() == 0 || self.rows.len() == self.size.rows
        &&& forall|i: int| 0 <= i < self.rows.len() ==> (#[trigger] self.rows[i]).cells.len() == self.size.cols
        &&& forall|i: int| 0 <= i < self.scrollback.len() ==> history_fits(#[trigger] self.scrollback[i])
        &&& self.pos.row < self.size.rows
        &&& self.pos.col <= self.size.cols
        &&& self.saved_pos.row < self.size.rows
        &&& self.saved_pos.col <= self.size.cols
        &&& self.scroll_top <= self.scroll_bottom
        &&& self.scroll_bottom < self.size.rows
        &&& self.scrollback.len() <= self.scrollback_len
        &&& self.scrollback_offset <= self.scrollback.len()
    }

    /// Whether the rows of the grid exist yet.
    pub open spec fn allocated(self) -> bool {
        self.rows.len() == self.size.rows
    }

    /// Whether every row of the scrollback is as wide as the grid.
    pub open spec fn uniform(self) -> bool {
        forall|i: int| 0 <= i < self.scrollback.len() ==> (#[trigger] self.scrollback[i]).cells.len() == self.size.cols
    }

    /// What every operation but a resize keeps: a grid in order, its size and
    /// its rows in existence, and the width of its scrollback.
    pub open spec fn keeps_order(self, before: GridModel) -> bool {
        &&& self.wf()
        &&& self.size == before.size
        &&& self.scrollback_len == before.scrollback_len
        &&& before.allocated() ==> self.allocated()
        &&& before.uniform() ==> self.uniform()
    }

    /// A grid whose rows do not exist yet.
    pub open spec fn fresh(size: Size, scrollback_len: usize) -> Self {
        GridModel {
            size,
            pos: Pos { row: 0, col: 0 },
            saved_pos: Pos { row: 0, col: 0 },
            rows: Seq::empty(),
            scroll_top: 0,
            scroll_bottom: (size.rows - 1) as u16,
            origin_mode: false,
            saved_origin_mode: false,
            scrollback: Seq::empty(),
            scrollback_len,
            scrollback_offset: 0,
        }
    }

    pub open spec fn blank_row(self) -> RowModel {
        RowModel::blank(self.size.cols as nat)
    }

    /// The grid with its rows in existence.
    pub open spec fn with_rows_allocated(self) -> Self {
        if self.rows.len() == 0 {
            GridModel { rows: Seq::new(self.size.rows as nat, |i: int| self.blank_row()), ..self }
        } else {
            self
        }
    }

    /// The grid with every row cleared and cursor and scroll region reset.
    pub open spec fn cleared(self) -> Self {
        GridModel {
            pos: Pos { row: 0, col: 0 },
            saved_pos: Pos { row: 0, col: 0 },
            rows: Seq::new(self.rows.len(), |i: int| self.rows[i].cleared(AttrsModel::plain())),
            scroll_top: 0,
            scroll_bottom: (self.size.rows - 1) as u16,
            origin_mode: false,
            saved_origin_mode: false,
            ..self
        }
    }

    pub open spec fn at(self, row: int, col: int) -> Self {
        GridModel { pos: Pos { row: row as u16, col: col as u16 }, ..self }
    }

    pub open spec fn with_row(self, i: int, row: RowModel) -> Self {
        GridModel { rows: self.rows.update(i, row), ..self }
    }

    pub open spec fn current_row(self) -> RowModel {
        self.rows[self.pos.row as int]
    }

    pub open spec fn with_current_row(self, row: RowModel) -> Self {
        self.with_row(self.pos.row as int, row)
    }

    /// The rows on view: history as far as the view is scrolled back, then
    /// screen rows.
    pub open spec fn visible(self) -> Seq<RowModel> {
        Seq::new(
            self.rows.len(),
            |i: int|
                if i < self.scrollback_offset {
                    self.scrollback[self.scrollback.len() - self.scrollback_offset + i]
                } else {
                    self.rows[i - self.scrollback_offset]
                },
        )
    }

    /// The view scrolled back, at most to the oldest row kept.
    pub open spec fn scrolled_back(self, rows: int) -> Self {
        GridModel {
            scrollback_offset: min_int(rows, self.scrollback.len() as int) as usize,
            ..self
        }
    }

    // Cursor movement.

    /// The cursor row moved down onto the scroll region, and by how much it was
    /// above it.
    pub open spec fn clamp_top(self, limit_to_scroll_region: bool) -> (Self, int) {
        if limit_to_scroll_region && self.pos.row < self.scroll_top {
            (self.at(self.scroll_top as int, self.pos.col as int), self.scroll_top - self.pos.row)
        } else {
            (self, 0)
        }
    }

    /// The cursor row moved up onto the scroll region or the grid, and by how
    /// much it was below it.
    pub open spec fn clamp_bottom(self, limit_to_scroll_region: bool) -> (Self, int) {
        let bottom = if limit_to_scroll_region {
            self.scroll_bottom as int
        } else {
            self.size.rows - 1
        };
        if self.pos.row > bottom {
            (self.at(bottom, self.pos.col as int), self.pos.row - bottom)
        } else {
            (self, 0)
        }
    }

    pub open spec fn clamp_row(self) -> Self {
        self.at(min_int(self.pos.row as int, self.size.rows - 1), self.pos.col as int)
    }

    pub open spec fn clamp_col(self) -> Self {
        self.at(self.pos.row as int, min_int(self.pos.col as int, self.size.cols - 1))
    }

    /// The cursor at a position, which in origin mode counts from the scroll
    /// region and stays in it.
    pub open spec fn moved_to(self, pos: Pos) -> Self {
        let row = if self.origin_mode {
            min_int(pos.row + self.scroll_top, u16::MAX as int)
        } else {
            pos.row as int
        };
        self.at(row, pos.col as int).clamp_top(self.origin_mode).0.clamp_bottom(
            self.origin_mode,
        ).0.clamp_col()
    }

    pub open spec fn cursor_saved(self) -> Self {
        GridModel { saved_pos: self.pos, saved_origin_mode: self.origin_mode, ..self }
    }

    pub open spec fn cursor_restored(self) -> Self {
        GridModel { pos: self.saved_pos, origin_mode: self.saved_origin_mode, ..self }
    }

    pub open spec fn in_scroll_region(self) -> bool {
        self.scroll_top <= self.pos.row <= self.scroll_bottom
    }

    pub open spec fn scroll_region_active(self) -> bool {
        self.scroll_top != 0 || self.scroll_bottom != self.size.rows - 1
    }

    pub open spec fn with_origin_mode(self, mode: bool) -> Self {
        (GridModel { origin_mode: mode, ..self }).moved_to(Pos { row: 0, col: 0 })
    }

    pub open spec fn with_scroll_region(self, top: u16, bottom: u16) -> Self {
        let last = self.size.rows - 1;
        let bottom = min_int(bottom as int, last);
        let valid = top < bottom;
        let top = if valid { top as int } else { 0 };
        GridModel {
            scroll_top: top as u16,
            scroll_bottom: (if valid { bottom } else { last }) as u16,
            pos: Pos { row: top as u16, col: 0 },
            ..self
        }
    }

    pub open spec fn row_down(self, count: int) -> Self {
        self.at(min_int(self.pos.row + count, u16::MAX as int), self.pos.col as int)
    }

    pub open spec fn row_up(self, count: int) -> Self {
        self.at(max_int(self.pos.row - count, 0), self.pos.col as int)
    }

    pub open spec fn row_inc_clamp(self, count: int) -> Self {
        self.row_down(count).clamp_bottom(self.in_scroll_region()).0
    }

    pub open spec fn row_dec_clamp(self, count: int) -> Self {
        self.row_up(count).clamp_top(self.in_scroll_region()).0
    }

    /// The cursor moved down; what does not fit in the scroll region scrolls
    /// it. Also by how many lines it scrolled.
    pub open spec fn row_inc_scroll(self, count: int) -> (Self, int) {
        let (moved, lines) = self.row_down(count).clamp_bottom(self.in_scroll_region());
        if self.in_scroll_region() {
            (moved.scrolled_up(lines), lines)
        } else {
            (moved, 0)
        }
    }

    /// The cursor moved up; what does not fit scrolls the region down.
    pub open spec fn row_dec_scroll(self, count: int) -> Self {
        let (moved, lines) = self.row_up(count).clamp_top(self.in_scroll_region());
        moved.scrolled_down(lines + max_int(count - self.pos.row, 0))
    }

    pub open spec fn row_set(self, row: int) -> Self {
        self.at(row, self.pos.col as int).clamp_row()
    }

    pub open spec fn col_inc(self, count: int) -> Self {
        self.at(self.pos.row as int, min_int(self.pos.col + count, u16::MAX as int))
    }

    pub open spec fn col_inc_clamp(self, count: int) -> Self {
        self.col_inc(count).clamp_col()
    }

    pub open spec fn col_dec(self, count: int) -> Self {
        self.at(self.pos.row as int, max_int(self.pos.col - count, 0))
    }

    /// The cursor at the next tab stop, of which there is one every eight
    /// columns, or at the last column.
    pub open spec fn col_tab(self) -> Self {
        let stop = self.pos.col - self.pos.col % 8 + 8;
        self.at(self.pos.row as int, min_int(stop, self.size.cols - 1))
    }

    pub open spec fn col_set(self, col: int) -> Self {
        self.at(self.pos.row as int, col).clamp_col()
    }

    /// The cursor on the next row, if fewer than `width` columns are left on
    /// this one; the row that it leaves is marked as wrapped where asked.
    pub open spec fn col_wrap(self, width: int, wrap: bool) -> Self {
        if self.pos.col > self.size.cols - width {
            let (moved, scrolled) = self.at(self.pos.row as int, 0).row_inc_scroll(1);
            let left = max_int(self.pos.row - scrolled, 0);
            moved.with_row(left, moved.rows[left].with_wrap(wrap && left + 1 == moved.pos.row))
        } else {
            self
        }
    }

    // Scrolling.

    /// A row moved into the scrollback, which keeps the newest rows.
    pub open spec fn with_history(self, row: RowModel) -> Self {
        GridModel {
            scrollback: if self.scrollback_len == 0 {
                self.scrollback
            } else {
                newest(self.scrollback.push(row), self.scrollback_len as int)
            },
            ..self
        }
    }

    /// The scroll region moved up by one line. Without a scroll region the line
    /// that leaves the screen goes into the scrollback, and a view that is
    /// scrolled back stays where it is.
    pub open spec fn scrolled_up_once(self) -> Self {
        let scrolled = GridModel {
            rows: self.rows.insert(self.scroll_bottom + 1, self.blank_row()).remove(
                self.scroll_top as int,
            ),
            ..self
        };
        if self.scrollback_len > 0 && !self.scroll_region_active() {
            let kept = scrolled.with_history(self.rows[self.scroll_top as int]);
            GridModel {
                scrollback_offset: if self.scrollback_offset > 0 {
                    min_int(kept.scrollback.len() as int, self.scrollback_offset + 1) as usize
                } else {
                    0
                },
                ..kept
            }
        } else {
            scrolled
        }
    }

    pub open spec fn scrolled_up_by(self, count: int) -> Self
        decreases count,
    {
        if count <= 0 {
            self
        } else {
            self.scrolled_up_by(count - 1).scrolled_up_once()
        }
    }

    /// The scroll region moved up, at most until nothing of it is left.
    pub open spec fn scrolled_up(self, count: int) -> Self {
        self.scrolled_up_by(min_int(count, self.size.rows - self.scroll_top))
    }

    /// A blank line inserted at a row, and the last line of the scroll region
    /// removed.
    pub open spec fn line_inserted(self, at: int) -> Self {
        let rows = self.rows.remove(self.scroll_bottom as int).insert(at, self.blank_row());
        GridModel {
            rows: rows.update(
                self.scroll_bottom as int,
                rows[self.scroll_bottom as int].with_wrap(false),
            ),
            ..self
        }
    }

    pub open spec fn lines_inserted_at(self, at: int, count: int) -> Self
        decreases count,
    {
        if count <= 0 {
            self
        } else {
            self.lines_inserted_at(at, count - 1).line_inserted(at)
        }
    }

    pub open spec fn scrolled_down(self, count: int) -> Self {
        self.lines_inserted_at(self.scroll_top as int, count)
    }

    pub open spec fn lines_inserted(self, count: int) -> Self {
        self.lines_inserted_at(self.pos.row as int, count)
    }

    /// The line at the cursor removed, and a blank one added below the scroll
    /// region.
    pub open spec fn line_deleted(self) -> Self {
        GridModel {
            rows: self.rows.insert(self.scroll_bottom + 1, self.blank_row()).remove(
                self.pos.row as int,
            ),
            ..self
        }
    }

    pub open spec fn lines_deleted_by(self, count: int) -> Self
        decreases count,
    {
        if count <= 0 {
            self
        } else {
            self.lines_deleted_by(count - 1).line_deleted()
        }
    }

    pub open spec fn lines_deleted(self, count: int) -> Self {
        self.lines_deleted_by(min_int(count, self.size.rows - self.pos.row))
    }

    // Erasing and shifting cells.

    pub open spec fn erased_all(self, attrs: AttrsModel) -> Self {
        GridModel { rows: Seq::new(self.rows.len(), |i: int| self.rows[i].cleared(attrs)), ..self }
    }

    pub open spec fn erased_row(self, attrs: AttrsModel) -> Self {
        self.with_current_row(self.current_row().cleared(attrs))
    }

    pub open spec fn erased_cols(self, from: int, to: int, attrs: AttrsModel) -> Self {
        self.with_current_row(self.current_row().erased_range(from, to, attrs))
    }

    pub open spec fn erased_row_forward(self, attrs: AttrsModel) -> Self {
        self.erased_cols(self.pos.col as int, self.size.cols as int, attrs)
    }

    pub open spec fn erased_row_backward(self, attrs: AttrsModel) -> Self {
        self.erased_cols(0, min_int(self.pos.col as int, self.size.cols - 1) + 1, attrs)
    }

    pub open spec fn erased_all_forward(self, attrs: AttrsModel) -> Self {
        (GridModel {
            rows: Seq::new(
                self.rows.len(),
                |i: int|
                    if i > self.pos.row {
                        self.rows[i].cleared(attrs)
                    } else {
                        self.rows[i]
                    },
            ),
            ..self
        }).erased_row_forward(attrs)
    }

    pub open spec fn erased_all_backward(self, attrs: AttrsModel) -> Self {
        (GridModel {
            rows: Seq::new(
                self.rows.len(),
                |i: int|
                    if i < self.pos.row {
                        self.rows[i].cleared(attrs)
                    } else {
                        self.rows[i]
                    },
            ),
            ..self
        }).erased_row_backward(attrs)
    }

    pub open spec fn erased_cells(self, count: int, attrs: AttrsModel) -> Self {
        self.erased_cols(
            self.pos.col as int,
            min_int(min_int(self.pos.col + count, u16::MAX as int), self.size.cols as int),
            attrs,
        )
    }

    /// Blank cells inserted at the cursor; what is pushed over the end of the
    /// row is lost. A wide character that the cursor divides stays whole.
    pub open spec fn cells_inserted(self, count: int) -> Self {
        let row = self.current_row();
        let col = self.pos.col as int;
        let divides = col < self.size.cols && row.cells[col].continuation;
        let added = Seq::new(
            count as nat,
            |i: int| CellModel { continuation: divides && i == 0, ..CellModel::blank() },
        );
        let rest = row.cells.subrange(col, row.cells.len() as int);
        let rest = if divides && count > 0 {
            rest.update(0, CellModel { continuation: false, ..rest[0] })
        } else {
            rest
        };
        let shifted = RowModel { cells: row.cells.subrange(0, col) + added + rest, ..row };
        self.with_current_row(shifted.truncated(self.size.cols as int))
    }

    /// Cells removed at the cursor; the row is filled up with blank ones.
    pub open spec fn cells_deleted(self, count: int) -> Self {
        let row = row_cells_removed(
            self.current_row(),
            self.pos.col as int,
            min_int(count, self.size.cols - self.pos.col),
        );
        self.with_current_row(row.resized(self.size.cols as nat, CellModel::blank()))
    }

    // Resizing.

    /// The grid at another size: rows are cut off or filled up, and so is the
    /// grid.
    pub open spec fn resized(self, size: Size) -> Self {
        let rows = Seq::new(
            size.rows as nat,
            |i: int|
                if i < self.rows.len() {
                    self.rows[i].resized(size.cols as nat, CellModel::blank())
                } else {
                    RowModel::blank(size.cols as nat)
                },
        );
        let bottom = if self.scroll_bottom == self.size.rows - 1 || self.scroll_bottom >= size.rows {
            size.rows - 1
        } else {
            self.scroll_bottom as int
        };
        GridModel {
            size,
            rows,
            scroll_top: if bottom < self.scroll_top { 0 } else { self.scroll_top },
            scroll_bottom: bottom as u16,
            pos: Pos {
                row: min_int(self.pos.row as int, size.rows - 1) as u16,
                col: min_int(self.pos.col as int, size.cols - 1) as u16,
            },
            saved_pos: Pos {
                row: min_int(self.saved_pos.row as int, size.rows - 1) as u16,
                col: min_int(self.saved_pos.col as int, size.cols - 1) as u16,
            },
            ..self
        }
    }

    /// The grid with its positions brought back inside it and without a scroll
    /// region. A cursor that waits behind the last column stays there.
    pub open spec fn after_resize(self) -> Self {
        GridModel {
            scroll_top: 0,
            scroll_bottom: (self.size.rows - 1) as u16,
            scrollback_offset: min_int(
                self.scrollback_offset as int,
                self.scrollback.len() as int,
            ) as usize,
            pos: Pos {
                row: min_int(self.pos.row as int, self.size.rows - 1) as u16,
                col: min_int(self.pos.col as int, self.size.cols as int) as u16,
            },
            saved_pos: Pos {
                row: min_int(self.saved_pos.row as int, self.size.rows - 1) as u16,
                col: min_int(self.saved_pos.col as int, self.size.cols - 1) as u16,
            },
            ..self
        }
    }

    pub open spec fn resized_plain(self, size: Size) -> Self {
        self.resized(
            Size { rows: at_least_one(size.rows), cols: at_least_one(size.cols) },
        ).after_resize()
    }

    /// Fewer screen rows: blank rows below the cursor are dropped first, then
    /// rows leave at the top for the scrollback. The row of the cursor never
    /// leaves: once it is at the top, rows below it are dropped.
    pub open spec fn rows_dropped(self, target: int) -> Self
        decreases self.rows.len(),
    {
        let last = self.rows.len() - 1;
        if self.rows.len() <= target || target < 0 {
            self
        } else if last > self.pos.row && (self.pos.row == 0 || self.rows[last].is_blank()) {
            (GridModel { rows: self.rows.drop_last(), ..self }).rows_dropped(target)
        } else {
            (GridModel {
                rows: self.rows.remove(0),
                pos: Pos { row: max_int(self.pos.row - 1, 0) as u16, ..self.pos },
                saved_pos: Pos { row: max_int(self.saved_pos.row - 1, 0) as u16, ..self.saved_pos },
                ..self.with_history(self.rows[0])
            }).rows_dropped(target)
        }
    }

    /// More screen rows: rows come back from the scrollback first, then blank
    /// rows are added.
    pub open spec fn rows_added(self, target: int) -> Self
        decreases target - self.rows.len(),
    {
        if self.rows.len() >= target {
            self
        } else if self.scrollback.len() > 0 {
            (GridModel {
                rows: self.rows.insert(0, self.scrollback.last()),
                scrollback: self.scrollback.drop_last(),
                pos: Pos { row: min_int(self.pos.row + 1, u16::MAX as int) as u16, ..self.pos },
                saved_pos: Pos {
                    row: min_int(self.saved_pos.row + 1, u16::MAX as int) as u16,
                    ..self.saved_pos
                },
                ..self
            }).rows_added(target)
        } else {
            (GridModel { rows: self.rows.push(self.blank_row()), ..self }).rows_added(target)
        }
    }

    pub open spec fn with_row_count(self, rows: int) -> Self {
        self.rows_dropped(rows).rows_added(rows)
    }

    /// Every logical line wrapped anew at another width.
    pub open spec fn with_columns(self, cols: u16) -> Self {
        let lines = reflow_lines(
            self.scrollback + self.rows,
            0,
            self.scrollback.len() + self.pos.row,
            self.pos.col as int,
            cols as int,
            ReflowModel { out: Seq::empty(), cursor: None },
        );
        let cursor = match lines.cursor {
            Some(cursor) => cursor,
            None => (max_int(lines.out.len() - 1, 0), 0),
        };
        let kept = blank_tail_dropped(lines.out, self.rows.len() as int, cursor.0);
        let start = min_int(max_int(kept.len() - self.rows.len(), 0), cursor.0);
        GridModel {
            size: Size { cols, ..self.size },
            rows: Seq::new(
                self.rows.len(),
                |i: int|
                    if start + i < kept.len() {
                        kept[start + i]
                    } else {
                        RowModel::blank(cols as nat)
                    },
            ),
            scrollback: newest(kept.take(start), self.scrollback_len as int),
            pos: Pos { row: (cursor.0 - start) as u16, col: cursor.1 as u16 },
            ..self
        }
    }

    /// The grid at another size: lines are wrapped anew, rows move between
    /// screen and scrollback, and the cursor stays on its character.
    pub open spec fn reflowed(self, size: Size) -> Self {
        let size = Size { rows: at_least_one(size.rows), cols: at_least_one(size.cols) };
        if self.rows.len() == 0 {
            (GridModel { size, ..self }).after_resize()
        } else {
            let wrapped = if size.cols != self.size.cols { self.with_columns(size.cols) } else { self };
            (GridModel { size, ..wrapped.with_row_count(size.rows as int) }).after_resize()
        }
    }
}

/// A row with cells removed one by one at a column.
pub open spec fn row_cells_removed(row: RowModel, col: int, count: int) -> RowModel
    decreases count,
{
    if count <= 0 {
        row
    } else {
        row_cells_removed(row, col, count - 1).removed(col)
    }
}

// Wrapping lines anew.

/// The row that ends the logical line that starts at a row: a line is a run of
/// wrapped rows and the row after them.
pub open spec fn line_end(all: Seq<RowModel>, row: int) -> int
    decreases all.len() - row,
{
    if 0 <= row && row + 1 < all.len() && all[row].wrapped {
        line_end(all, row + 1)
    } else {
        row
    }
}

/// The cells of the rows `start..end`, one after the other.
pub open spec fn flattened(all: Seq<RowModel>, start: int, end: int) -> Seq<CellModel>
    decreases end - start,
{
    if end <= start {
        Seq::empty()
    } else {
        flattened(all, start, end - 1) + all[end - 1].cells
    }
}

/// Cells without the blank ones at the end.
pub open spec fn blanks_trimmed(cells: Seq<CellModel>) -> Seq<CellModel>
    decreases cells.len(),
{
    if cells.len() > 0 && cells.last() == CellModel::blank() {
        blanks_trimmed(cells.drop_last())
    } else {
        cells
    }
}

/// Whether some row of `start..end` may hold a graphics placeholder.
pub open spec fn any_placeholder(all: Seq<RowModel>, start: int, end: int) -> bool
    decreases end - start,
{
    if end <= start {
        false
    } else {
        any_placeholder(all, start, end - 1) || all[end - 1].placeholder
    }
}

/// A line cut into rows, and the row and column of the cell under the cursor.
pub struct ChunkModel {
    pub rows: Seq<Seq<CellModel>>,
    pub cursor: Option<(int, int)>,
}

impl ChunkModel {
    /// The row for the next cell: a full row is left, and so is a row in which
    /// a wide character would be split.
    pub open spec fn room_for(self, cell: CellModel, width: int) -> Seq<Seq<CellModel>> {
        let last = self.rows.last();
        if last.len() >= width {
            self.rows.push(Seq::empty())
        } else if cell.wide && last.len() == width - 1 {
            self.rows.update(self.rows.len() - 1, last.push(CellModel::blank())).push(Seq::empty())
        } else {
            self.rows
        }
    }

    /// One more cell. Wide characters do not fit in a single column.
    pub open spec fn step(self, cell: CellModel, width: int, under_cursor: bool) -> Self {
        if width < 2 && (cell.wide || cell.continuation) {
            self
        } else {
            let rows = self.room_for(cell, width);
            let at = rows.len() - 1;
            ChunkModel {
                rows: rows.update(at, rows[at].push(cell)),
                cursor: if under_cursor { Some((at, rows[at].len() as int)) } else { self.cursor },
            }
        }
    }
}

/// The first `n` cells of a line cut into rows.
pub open spec fn chunked(
    cells: Seq<CellModel>,
    n: int,
    width: int,
    cursor_offset: Option<int>,
) -> ChunkModel
    decreases n,
{
    if n <= 0 {
        ChunkModel { rows: seq![Seq::empty()], cursor: None }
    } else {
        chunked(cells, n - 1, width, cursor_offset).step(
            cells[n - 1],
            width,
            cursor_offset == Some(n - 1),
        )
    }
}

/// Where the cursor ends up in a line: on its cell, or as far behind the end of
/// the line's text as it was, at most one past the last column.
pub open spec fn line_cursor(
    chunks: ChunkModel,
    cursor_offset: Option<int>,
    content_len: int,
    width: int,
) -> Option<(int, int)> {
    match cursor_offset {
        Some(offset) => if chunks.cursor is Some {
            chunks.cursor
        } else {
            let last = chunks.rows.len() - 1;
            Some((
                last,
                min_int(chunks.rows[last].len() + max_int(offset - content_len, 0), width),
            ))
        },
        None => None,
    }
}

/// The rows of a line: filled up with blank cells, all but the last wrapped.
pub open spec fn line_rows(chunks: Seq<Seq<CellModel>>, width: int, placeholder: bool) -> Seq<RowModel> {
    Seq::new(
        chunks.len(),
        |k: int|
            RowModel {
                cells: Seq::new(
                    width as nat,
                    |i: int|
                        if i < chunks[k].len() {
                            chunks[k][i]
                        } else {
                            CellModel::blank()
                        },
                ),
                wrapped: k + 1 < chunks.len(),
                placeholder,
            },
    )
}

/// The rows that were wrapped anew so far, and the cursor among them.
pub struct ReflowModel {
    pub out: Seq<RowModel>,
    pub cursor: Option<(int, int)>,
}

/// How far into a line the cursor is, if it is in it.
pub open spec fn cursor_in_line(
    all: Seq<RowModel>,
    start: int,
    end: int,
    cursor_row: int,
    cursor_col: int,
) -> Option<int> {
    if start <= cursor_row <= end {
        Some(flattened(all, start, cursor_row).len() + cursor_col)
    } else {
        None
    }
}

/// One logical line, from row `start` to row `end`, wrapped anew.
pub open spec fn reflow_line(
    all: Seq<RowModel>,
    start: int,
    end: int,
    cursor_row: int,
    cursor_col: int,
    width: int,
    state: ReflowModel,
) -> ReflowModel {
    let cells = blanks_trimmed(flattened(all, start, end + 1));
    let offset = cursor_in_line(all, start, end, cursor_row, cursor_col);
    let chunks = chunked(cells, cells.len() as int, width, offset);
    let cursor = line_cursor(chunks, offset, cells.len() as int, width);
    ReflowModel {
        out: state.out + line_rows(chunks.rows, width, any_placeholder(all, start, end + 1)),
        cursor: match cursor {
            Some((row, col)) => Some((state.out.len() + row, col)),
            None => state.cursor,
        },
    }
}

/// The logical lines from row `start` on, wrapped anew.
pub open spec fn reflow_lines(
    all: Seq<RowModel>,
    start: int,
    cursor_row: int,
    cursor_col: int,
    width: int,
    state: ReflowModel,
) -> ReflowModel
    decreases all.len() - start via reflow_lines_decreases
{
    if start < 0 || start >= all.len() {
        state
    } else {
        let end = line_end(all, start);
        reflow_lines(
            all,
            end + 1,
            cursor_row,
            cursor_col,
            width,
            reflow_line(all, start, end, cursor_row, cursor_col, width, state),
        )
    }
}

#[via_fn]
proof fn reflow_lines_decreases(
    all: Seq<RowModel>,
    start: int,
    cursor_row: int,
    cursor_col: int,
    width: int,
    state: ReflowModel,
) {
    if !(start < 0 || start >= all.len()) {
        lemma_line_end(all, start);
    }
}

pub proof fn lemma_line_end(all: Seq<RowModel>, row: int)
    requires
        0 <= row < all.len(),
    ensures
        row <= line_end(all, row) < all.len(),
    decreases all.len() - row,
{
    if row + 1 < all.len() && all[row].wrapped {
        lemma_line_end(all, row + 1);
    }
}

/// Rows without the blank ones at the end, down to a number of rows and to the
/// cursor.
pub open spec fn blank_tail_dropped(rows: Seq<RowModel>, keep: int, cursor_row: int) -> Seq<RowModel>
    decreases rows.len(),
{
    if rows.len() > keep && rows.len() - 1 > cursor_row && rows.len() > 0 && rows.last().is_blank() {
        blank_tail_dropped(rows.drop_last(), keep, cursor_row)
    } else {
        rows
    }
}

// Writing a grid out.

/// The text of rows, and whether the last of them wraps.
pub open spec fn rows_text(
    out: Seq<char>,
    rows: Seq<RowModel>,
    n: int,
    cols: int,
) -> (Seq<char>, bool)
    decreases n,
{
    if n <= 0 {
        (out, false)
    } else {
        let (before, wrapping) = rows_text(out, rows, n - 1, cols);
        let row = rows[n - 1];
        let text = row_text(before, row, 0, cols, wrapping);
        (if row.wrapped { text } else { text.push('\n') }, row.wrapped)
    }
}

/// Text without the line breaks at its end.
pub open spec fn line_breaks_trimmed(text: Seq<char>) -> Seq<char>
    decreases text.len(),
{
    if text.len() > 0 && text.last() == '\n' {
        line_breaks_trimmed(text.drop_last())
    } else {
        text
    }
}

/// The bytes written for some rows, where they leave the cursor and the
/// attributes, and whether the last row written wraps, now and before.
pub struct WrittenModel {
    pub out: Seq<u8>,
    pub pos: Pos,
    pub attrs: AttrsModel,
    pub wrapping: bool,
    pub prev_wrapping: bool,
}

/// The first `n` rows written out on a cleared screen.
pub open spec fn rows_formatted(
    start: WrittenModel,
    rows: Seq<RowModel>,
    n: int,
    cols: int,
) -> WrittenModel
    decreases n,
{
    if n <= 0 {
        start
    } else {
        let before = rows_formatted(start, rows, n - 1, cols);
        let pen = row_formatted(
            before.out,
            rows[n - 1].cells,
            0,
            cols,
            (n - 1) as u16,
            before.wrapping,
            Some(before.pos),
            Some(before.attrs),
        );
        WrittenModel {
            out: pen.out,
            pos: pen.pos,
            attrs: pen.attrs,
            wrapping: rows[n - 1].wrapped,
            prev_wrapping: false,
        }
    }
}

/// What turns the first `n` rows of `prev` into those of `rows` written out.
pub open spec fn rows_diff(
    start: WrittenModel,
    rows: Seq<RowModel>,
    prev: Seq<RowModel>,
    n: int,
    cols: int,
) -> WrittenModel
    decreases n,
{
    if n <= 0 {
        start
    } else {
        let before = rows_diff(start, rows, prev, n - 1, cols);
        let pen = row_diff(
            before.out,
            rows[n - 1],
            prev[n - 1],
            0,
            cols,
            (n - 1) as u16,
            before.wrapping,
            before.prev_wrapping,
            before.pos,
            before.attrs,
        );
        WrittenModel {
            out: pen.out,
            pos: pen.pos,
            attrs: pen.attrs,
            wrapping: rows[n - 1].wrapped,
            prev_wrapping: prev[n - 1].wrapped,
        }
    }
}

/// The cell that ends a row.
pub open spec fn end_cell(row: RowModel) -> CellModel {
    row.cells[last_glyph_col(row.cells)]
}

/// The nearest of the rows above `row` that ends in text.
pub open spec fn filled_row_above(rows: Seq<RowModel>, row: int) -> Option<int>
    decreases row,
{
    if row <= 0 {
        None
    } else if end_cell(rows[row - 1]).text.len() > 0 {
        Some(row - 1)
    } else {
        filled_row_above(rows, row - 1)
    }
}

/// A cursor move from where the cursor is, if that is known.
pub open spec fn goto(from: Option<Pos>, to: Pos) -> Seq<u8> {
    match from {
        Some(from) => term::move_from_to(from, to),
        None => term::move_to(to),
    }
}

/// A cell drawn again at its place, with the attributes put back after it.
pub open spec fn redrawn(
    out: Seq<u8>,
    from: Option<Pos>,
    to: Pos,
    cell: CellModel,
    attrs: AttrsModel,
) -> Seq<u8> {
    out + goto(from, to) + attrs_diff(cell.attrs, attrs) + encode_utf8(cell.text) + attrs_diff(
        attrs,
        cell.attrs,
    )
}

/// `n` line feeds.
pub open spec fn line_feeds(n: int) -> Seq<char> {
    Seq::new(n as nat, |i: int| '\n')
}

impl GridModel {
    /// The text so far with the visible text added; line breaks at the end are
    /// left out.
    pub open spec fn text(self, out: Seq<char>) -> Seq<char> {
        line_breaks_trimmed(
            rows_text(out, self.visible(), self.visible().len() as int, self.size.cols as int).0,
        )
    }

    /// The visible rows written out on a cleared screen.
    pub open spec fn formatted(self, out: Seq<u8>) -> WrittenModel {
        let start = WrittenModel {
            out: out + encode_utf8("\x1b[m"@) + encode_utf8("\x1b[H\x1b[J"@),
            pos: Pos { row: 0, col: 0 },
            attrs: AttrsModel::plain(),
            wrapping: false,
            prev_wrapping: false,
        };
        let rows = self.visible();
        let written = rows_formatted(start, rows, rows.len() as int, self.size.cols as int);
        WrittenModel {
            out: self.cursor_formatted(written.out, Some(written.pos), Some(written.attrs)),
            ..written
        }
    }

    /// What turns the visible rows of `prev` into those of this grid.
    pub open spec fn diff(self, out: Seq<u8>, prev: GridModel, prev_attrs: AttrsModel) -> WrittenModel {
        let start = WrittenModel {
            out,
            pos: prev.pos,
            attrs: prev_attrs,
            wrapping: false,
            prev_wrapping: false,
        };
        let rows = self.visible();
        let n = min_int(rows.len() as int, prev.visible().len() as int);
        let written = rows_diff(start, rows, prev.visible(), n, self.size.cols as int);
        WrittenModel {
            out: self.cursor_formatted(written.out, Some(written.pos), Some(written.attrs)),
            ..written
        }
    }

    /// The bytes that put the cursor in its place. A cursor that waits behind
    /// the last column gets there by drawing what ends the row, or by line
    /// feeds from a row above on which it could wait, or by drawing and erasing
    /// a blank.
    pub open spec fn cursor_formatted(
        self,
        out: Seq<u8>,
        prev_pos: Option<Pos>,
        prev_attrs: Option<AttrsModel>,
    ) -> Seq<u8> {
        let attrs = match prev_attrs {
            Some(attrs) => attrs,
            None => AttrsModel::plain(),
        };
        if prev_pos != Some(self.pos) && self.pos.col >= self.size.cols {
            let row = self.current_row();
            if end_cell(row).text.len() > 0 {
                let to = Pos { row: self.pos.row, col: last_glyph_col(row.cells) as u16 };
                redrawn(out, prev_pos, to, end_cell(row), attrs)
            } else {
                match filled_row_above(self.rows, self.pos.row as int) {
                    Some(i) => {
                        let waiting = match prev_pos {
                            Some(pos) => pos.row == i && pos.col >= self.size.cols,
                            None => false,
                        };
                        let above = self.rows[i];
                        let to = Pos { row: i as u16, col: last_glyph_col(above.cells) as u16 };
                        (if waiting {
                            out
                        } else {
                            redrawn(out, prev_pos, to, end_cell(above), attrs)
                        }) + encode_utf8(line_feeds(self.pos.row - i))
                    },
                    None => {
                        let to = Pos { row: self.pos.row, col: (self.size.cols - 1) as u16 };
                        let last = row.cells[self.size.cols - 1];
                        out + goto(prev_pos, to) + encode_utf8(" "@) + attrs_diff(last.attrs, attrs)
                            + encode_utf8("\x1b7"@) + encode_utf8("\x08"@) + term::erase_char(1)
                            + encode_utf8("\x1b8"@) + attrs_diff(attrs, last.attrs)
                    },
                }
            }
        } else {
            out + goto(prev_pos, self.pos)
        }
    }
}

// What operations keep.

/// What scrolling leaves alone: everything but the rows, the scrollback and how
/// far the view is scrolled back.
pub open spec fn same_frame(a: GridModel, b: GridModel) -> bool {
    a == (GridModel {
        rows: a.rows,
        scrollback: a.scrollback,
        scrollback_offset: a.scrollback_offset,
        ..b
    })
}

pub proof fn lemma_with_history(grid: GridModel, row: RowModel)
    requires
        grid.scrollback.len() <= grid.scrollback_len,
        forall|i: int| 0 <= i < grid.scrollback.len() ==> history_fits(#[trigger] grid.scrollback[i]),
        history_fits(row),
    ensures
        ({
            let kept = grid.with_history(row);
            &&& kept.scrollback.len() <= kept.scrollback_len
            &&& forall|i: int| 0 <= i < kept.scrollback.len() ==> history_fits(#[trigger] kept.scrollback[i])
            &&& grid.uniform() && row.cells.len() == grid.size.cols ==> kept.uniform()
            &&& kept.scrollback.len() >= grid.scrollback.len()
        }),
{
}

pub proof fn lemma_scrolled_up_once(grid: GridModel)
    requires
        grid.wf(),
        grid.allocated(),
    ensures
        grid.scrolled_up_once().wf(),
        grid.scrolled_up_once().allocated(),
        same_frame(grid.scrolled_up_once(), grid),
        grid.uniform() ==> grid.scrolled_up_once().uniform(),
{
    lemma_with_history(grid, grid.rows[grid.scroll_top as int]);
    assert(grid.scrolled_up_once().rows.len() == grid.rows.len());
}

pub proof fn lemma_scrolled_up_by(grid: GridModel, count: int)
    requires
        grid.wf(),
        grid.allocated(),
    ensures
        grid.scrolled_up_by(count).wf(),
        grid.scrolled_up_by(count).allocated(),
        same_frame(grid.scrolled_up_by(count), grid),
        grid.uniform() ==> grid.scrolled_up_by(count).uniform(),
    decreases count,
{
    if count > 0 {
        lemma_scrolled_up_by(grid, count - 1);
        lemma_scrolled_up_once(grid.scrolled_up_by(count - 1));
    }
}

pub proof fn lemma_lines_inserted_at(grid: GridModel, at: int, count: int)
    requires
        grid.wf(),
        grid.allocated(),
        0 <= at < grid.size.rows,
    ensures
        grid.lines_inserted_at(at, count).wf(),
        grid.lines_inserted_at(at, count).allocated(),
        ({
            let after = grid.lines_inserted_at(at, count);
            after == (GridModel { rows: after.rows, ..grid })
        }),
    decreases count,
{
    if count > 0 {
        lemma_lines_inserted_at(grid, at, count - 1);
        let before = grid.lines_inserted_at(at, count - 1);
        let after = before.line_inserted(at);
        assert(after.rows.len() == before.rows.len());
        assert forall|i: int| 0 <= i < after.rows.len() implies (#[trigger] after.rows[i]).cells.len()
            == after.size.cols by {
            let removed = before.rows.remove(before.scroll_bottom as int);
            assert(removed.insert(at, before.blank_row())[i].cells.len() == after.size.cols);
        }
    }
}

pub proof fn lemma_lines_deleted_by(grid: GridModel, count: int)
    requires
        grid.wf(),
        grid.allocated(),
    ensures
        grid.lines_deleted_by(count).wf(),
        grid.lines_deleted_by(count).allocated(),
        ({
            let after = grid.lines_deleted_by(count);
            after == (GridModel { rows: after.rows, ..grid })
        }),
    decreases count,
{
    if count > 0 {
        lemma_lines_deleted_by(grid, count - 1);
        let before = grid.lines_deleted_by(count - 1);
        let after = before.line_deleted();
        assert(after.rows.len() == before.rows.len());
    }
}

/// Cells cut into rows stay within the width, and the cursor stays among them.
pub proof fn lemma_chunked(cells: Seq<CellModel>, n: int, width: int, cursor_offset: Option<int>)
    requires
        0 <= n <= cells.len(),
        width > 0,
    ensures
        ({
            let chunks = chunked(cells, n, width, cursor_offset);
            &&& chunks.rows.len() > 0
            &&& forall|k: int| 0 <= k < chunks.rows.len() ==> (#[trigger] chunks.rows[k]).len() <= width
            &&& chunks.cursor matches Some((row, col)) ==> 0 <= row < chunks.rows.len() && 0 <= col <= width
        }),
    decreases n,
{
    if n > 0 {
        lemma_chunked(cells, n - 1, width, cursor_offset);
        let before = chunked(cells, n - 1, width, cursor_offset);
        let after = chunked(cells, n, width, cursor_offset);
        let rows = before.room_for(cells[n - 1], width);
        assert(before.rows.last() == before.rows[before.rows.len() - 1]);
        assert forall|k: int| 0 <= k < after.rows.len() implies (#[trigger] after.rows[k]).len() <= width by {
            if k < before.rows.len() {
                assert(before.rows[k].len() <= width);
            }
        }
    }
}

/// Lines wrapped anew are as wide as asked, and the cursor is among them.
pub open spec fn reflow_fits(state: ReflowModel, width: int) -> bool {
    &&& forall|k: int| 0 <= k < state.out.len() ==> (#[trigger] state.out[k]).cells.len() == width
    &&& state.cursor matches Some((row, col)) ==> 0 <= row < state.out.len() && 0 <= col <= width
}

pub proof fn lemma_reflow_line(
    all: Seq<RowModel>,
    start: int,
    end: int,
    cursor_row: int,
    cursor_col: int,
    width: int,
    state: ReflowModel,
)
    requires
        0 <= start <= end < all.len(),
        width > 0,
        cursor_col >= 0,
        reflow_fits(state, width),
    ensures
        reflow_fits(reflow_line(all, start, end, cursor_row, cursor_col, width, state), width),
        reflow_line(all, start, end, cursor_row, cursor_col, width, state).out.len() > state.out.len(),
{
    let cells = blanks_trimmed(flattened(all, start, end + 1));
    let offset = cursor_in_line(all, start, end, cursor_row, cursor_col);
    lemma_chunked(cells, cells.len() as int, width, offset);
}

pub proof fn lemma_reflow_lines(
    all: Seq<RowModel>,
    start: int,
    cursor_row: int,
    cursor_col: int,
    width: int,
    state: ReflowModel,
)
    requires
        0 <= start,
        width > 0,
        cursor_col >= 0,
        reflow_fits(state, width),
    ensures
        reflow_fits(reflow_lines(all, start, cursor_row, cursor_col, width, state), width),
        reflow_lines(all, start, cursor_row, cursor_col, width, state).out.len() >= state.out.len(),
        start < all.len() ==> reflow_lines(all, start, cursor_row, cursor_col, width, state).out.len()
            > state.out.len(),
    decreases all.len() - start,
{
    if start < all.len() {
        lemma_line_end(all, start);
        let end = line_end(all, start);
        lemma_reflow_line(all, start, end, cursor_row, cursor_col, width, state);
        lemma_reflow_lines(
            all,
            end + 1,
            cursor_row,
            cursor_col,
            width,
            reflow_line(all, start, end, cursor_row, cursor_col, width, state),
        );
    }
}

/// Dropping blank rows at the end leaves the rows before them, down to the
/// cursor.
pub proof fn lemma_blank_tail_dropped(rows: Seq<RowModel>, keep: int, cursor_row: int)
    requires
        0 <= cursor_row < rows.len(),
    ensures
        ({
            let kept = blank_tail_dropped(rows, keep, cursor_row);
            &&& cursor_row < kept.len() <= rows.len()
            &&& kept == rows.take(kept.len() as int)
        }),
    decreases rows.len(),
{
    let kept = blank_tail_dropped(rows, keep, cursor_row);
    if rows.len() > keep && rows.len() - 1 > cursor_row && rows.len() > 0 && rows.last().is_blank() {
        lemma_blank_tail_dropped(rows.drop_last(), keep, cursor_row);
        assert(rows.drop_last().take(kept.len() as int) =~= rows.take(kept.len() as int));
    } else {
        assert(rows.take(rows.len() as int) =~= rows);
    }
}

/// A grid with other columns has rows of that width everywhere and its cursor
/// on the screen.
pub proof fn lemma_with_columns(grid: GridModel, cols: u16)
    requires
        grid.wf(),
        grid.rows.len() > 0,
        cols > 0,
    ensures
        ({
            let after = grid.with_columns(cols);
            &&& after.rows.len() == grid.rows.len()
            &&& forall|i: int| 0 <= i < after.rows.len() ==> (#[trigger] after.rows[i]).cells.len() == cols
            &&& after.uniform()
            &&& after.scrollback.len() <= after.scrollback_len
            &&& after.pos.row < grid.size.rows
            &&& after.pos.col <= cols
        }),
{
    let state = ReflowModel { out: Seq::empty(), cursor: None };
    let all = grid.scrollback + grid.rows;
    lemma_reflow_lines(
        all,
        0,
        grid.scrollback.len() + grid.pos.row,
        grid.pos.col as int,
        cols as int,
        state,
    );
    let lines = reflow_lines(
        all,
        0,
        grid.scrollback.len() + grid.pos.row,
        grid.pos.col as int,
        cols as int,
        state,
    );
    let cursor = match lines.cursor {
        Some(cursor) => cursor,
        None => (max_int(lines.out.len() - 1, 0), 0),
    };
    lemma_blank_tail_dropped(lines.out, grid.rows.len() as int, cursor.0);
    let kept = blank_tail_dropped(lines.out, grid.rows.len() as int, cursor.0);
    let start = min_int(max_int(kept.len() - grid.rows.len(), 0), cursor.0);
    assert forall|i: int| 0 <= i < kept.len() implies (#[trigger] kept[i]).cells.len() == cols by {
        assert(kept[i] == lines.out[i]);
    }
}

/// A state on the way through a resize: rows of the grid's width on the screen
/// and in the scrollback.
pub open spec fn resizing(grid: GridModel) -> bool {
    &&& grid.size.cols > 0
    &&& forall|i: int| 0 <= i < grid.rows.len() ==> (#[trigger] grid.rows[i]).cells.len() == grid.size.cols
    &&& grid.uniform()
    &&& grid.scrollback.len() <= grid.scrollback_len
}

pub proof fn lemma_rows_dropped(grid: GridModel, target: int)
    requires
        resizing(grid),
        target > 0,
    ensures
        ({
            let after = grid.rows_dropped(target);
            &&& resizing(after)
            &&& after.rows.len() == min_int(grid.rows.len() as int, target)
            &&& after.size == grid.size
            &&& after.pos.col == grid.pos.col
            &&& after.scrollback_len == grid.scrollback_len
        }),
    decreases grid.rows.len(),
{
    if grid.rows.len() > target {
        let last = grid.rows.len() - 1;
        if last > grid.pos.row && (grid.pos.row == 0 || grid.rows[last].is_blank()) {
            lemma_rows_dropped(GridModel { rows: grid.rows.drop_last(), ..grid }, target);
        } else {
            let next = GridModel {
                rows: grid.rows.remove(0),
                pos: Pos { row: max_int(grid.pos.row - 1, 0) as u16, ..grid.pos },
                saved_pos: Pos { row: max_int(grid.saved_pos.row - 1, 0) as u16, ..grid.saved_pos },
                ..grid.with_history(grid.rows[0])
            };
            lemma_with_history(grid, grid.rows[0]);
            assert(next.uniform()) by {
                assert(grid.with_history(grid.rows[0]).uniform());
                assert(next.scrollback == grid.with_history(grid.rows[0]).scrollback);
            }
            lemma_rows_dropped(next, target);
        }
    }
}

pub proof fn lemma_rows_added(grid: GridModel, target: int)
    requires
        resizing(grid),
    ensures
        ({
            let after = grid.rows_added(target);
            &&& resizing(after)
            &&& after.rows.len() == max_int(grid.rows.len() as int, target)
            &&& after.size == grid.size
            &&& after.pos.col == grid.pos.col
            &&& after.scrollback_len == grid.scrollback_len
        }),
    decreases target - grid.rows.len(),
{
    if grid.rows.len() < target {
        if grid.scrollback.len() > 0 {
            let next = GridModel {
                rows: grid.rows.insert(0, grid.scrollback.last()),
                scrollback: grid.scrollback.drop_last(),
                pos: Pos { row: min_int(grid.pos.row + 1, u16::MAX as int) as u16, ..grid.pos },
                saved_pos: Pos {
                    row: min_int(grid.saved_pos.row + 1, u16::MAX as int) as u16,
                    ..grid.saved_pos
                },
                ..grid
            };
            assert(grid.scrollback.last() == grid.scrollback[grid.scrollback.len() - 1]);
            lemma_rows_added(next, target);
        } else {
            lemma_rows_added(GridModel { rows: grid.rows.push(grid.blank_row()), ..grid }, target);
        }
    }
}

/// Wrapping lines anew leaves a grid in order.
pub proof fn lemma_reflowed(grid: GridModel, size: Size)
    requires
        grid.wf(),
        grid.uniform() || at_least_one(size.cols) != grid.size.cols,
    ensures
        grid.reflowed(size).wf(),
        grid.rows.len() > 0 ==> grid.reflowed(size).uniform(),
        grid.rows.len() > 0 ==> grid.reflowed(size).allocated(),
        grid.rows.len() == 0 ==> grid.reflowed(size).rows.len() == 0,
{
    let size = Size { rows: at_least_one(size.rows), cols: at_least_one(size.cols) };
    if grid.rows.len() > 0 {
        let wrapped = if size.cols != grid.size.cols { grid.with_columns(size.cols) } else { grid };
        if size.cols != grid.size.cols {
            lemma_with_columns(grid, size.cols);
        }
        lemma_rows_dropped(wrapped, size.rows as int);
        lemma_rows_added(wrapped.rows_dropped(size.rows as int), size.rows as int);
    }
}

/// Every row on view has at least one column.
pub proof fn lemma_visible(grid: GridModel)
    requires
        grid.wf(),
    ensures
        grid.visible().len() == grid.rows.len(),
        forall|i: int| 0 <= i < grid.visible().len() ==> history_fits(#[trigger] grid.visible()[i]),
{
}

/// After wrapping, a character of the given width fits behind the cursor.
pub proof fn lemma_col_wrap(grid: GridModel, width: int, wrap: bool)
    requires
        grid.wf(),
        grid.allocated(),
        0 < width <= grid.size.cols,
    ensures
        grid.col_wrap(width, wrap).pos.col + width <= grid.size.cols,
        grid.col_wrap(width, wrap).wf(),
        grid.col_wrap(width, wrap).allocated(),
        grid.col_wrap(width, wrap).size == grid.size,
{
    if grid.pos.col > grid.size.cols - width {
        let start = grid.at(grid.pos.row as int, 0);
        let (moved, lines) = start.row_down(1).clamp_bottom(start.in_scroll_region());
        if start.in_scroll_region() {
            lemma_scrolled_up_by(moved, min_int(lines, moved.size.rows - moved.scroll_top));
        }
    }
}

} // verus!
