//! A resize keeps every logical line.

use crate::ratty_vt::cell::CellModel;
use crate::ratty_vt::grid::{Pos, Size};
use crate::ratty_vt::grid_model::{
    any_placeholder, at_least_one, blank_tail_dropped, blanks_trimmed, chunked, cursor_in_line,
    flattened, lemma_blank_tail_dropped, lemma_chunked, lemma_line_end, lemma_reflow_lines, line_end,
    line_rows, max_int, min_int, reflow_line, reflow_lines, GridModel, ReflowModel,
};
use crate::ratty_vt::row::RowModel;
use vstd::prelude::*;

verus! {

/// The lines that rows make: a row goes on with the line of the row above, where that
/// wraps.
pub open spec fn lines_of(rows: Seq<RowModel>) -> Seq<Seq<CellModel>>
    decreases rows.len(),
{
    if rows.len() == 0 {
        Seq::empty()
    } else {
        let before = lines_of(rows.drop_last());
        let cells = rows.last().cells;
        if rows.len() > 1 && rows[rows.len() - 2].wrapped {
            before.update(before.len() - 1, before.last() + cells)
        } else {
            before.push(cells)
        }
    }
}

/// Lines without the blank cells at their ends.
pub open spec fn lines_trimmed(lines: Seq<Seq<CellModel>>) -> Seq<Seq<CellModel>> {
    Seq::new(lines.len(), |i: int| blanks_trimmed(lines[i]))
}

/// Lines without the empty ones at the end.
pub open spec fn empty_tail_dropped(lines: Seq<Seq<CellModel>>) -> Seq<Seq<CellModel>>
    decreases lines.len(),
{
    if lines.len() > 0 && lines.last().len() == 0 {
        empty_tail_dropped(lines.drop_last())
    } else {
        lines
    }
}

/// The logical lines of rows: what is written in each, whatever the rows it is wrapped
/// onto.
pub open spec fn logical_lines(rows: Seq<RowModel>) -> Seq<Seq<CellModel>> {
    empty_tail_dropped(lines_trimmed(lines_of(rows)))
}

proof fn lemma_lines_count(rows: Seq<RowModel>)
    ensures
        rows.len() > 0 ==> lines_of(rows).len() > 0,
        rows.len() == 0 ==> lines_of(rows).len() == 0,
    decreases rows.len(),
{
    if rows.len() > 0 {
        lemma_lines_count(rows.drop_last());
    }
}

/// Rows that do not wrap into others make their own lines.
proof fn lemma_lines_add(a: Seq<RowModel>, b: Seq<RowModel>)
    requires
        a.len() > 0 ==> !a.last().wrapped,
    ensures
        lines_of(a + b) == lines_of(a) + lines_of(b),
    decreases b.len(),
{
    if b.len() == 0 {
        assert(a + b =~= a);
        assert(lines_of(a) + lines_of(b) =~= lines_of(a));
    } else {
        lemma_lines_add(a, b.drop_last());
        lemma_lines_count(b.drop_last());
        let all = a + b;
        assert(all.drop_last() =~= a + b.drop_last());
        assert(all.last() == b.last());
        if b.len() > 1 {
            assert(all[all.len() - 2] == b[b.len() - 2]);
        } else if a.len() > 0 {
            assert(all[all.len() - 2] == a.last());
        }
        assert(lines_of(all) =~= lines_of(a) + lines_of(b));
    }
}

/// Rows of which all but the last wrap make one line.
proof fn lemma_one_line(rows: Seq<RowModel>)
    requires
        rows.len() > 0,
        forall|i: int| 0 <= i < rows.len() - 1 ==> (#[trigger] rows[i]).wrapped,
    ensures
        lines_of(rows) == seq![flattened(rows, 0, rows.len() as int)],
    decreases rows.len(),
{
    let n = rows.len() as int;
    let before = rows.drop_last();
    lemma_flattened_prefix(rows, n - 1);
    if n > 1 {
        assert forall|i: int| 0 <= i < before.len() - 1 implies (#[trigger] before[i]).wrapped by {
            assert(rows[i].wrapped);
        }
        lemma_one_line(before);
        assert(rows[n - 2].wrapped);
        let start = flattened(rows, 0, n - 1);
        assert(lines_of(before) == seq![start]);
        assert(lines_of(before).last() == start);
        assert(flattened(rows, 0, n) == start + rows[n - 1].cells);
    } else {
        assert(before =~= Seq::<RowModel>::empty());
        assert(lines_of(before).len() == 0);
        assert(flattened(rows, 0, 0) =~= Seq::<CellModel>::empty());
        assert(flattened(rows, 0, 1) =~= flattened(rows, 0, 0) + rows[0].cells);
        assert(flattened(rows, 0, 1) =~= rows[0].cells);
    }
    assert(lines_of(rows).len() == 1);
    assert(lines_of(rows)[0] == flattened(rows, 0, n));
    assert(lines_of(rows) =~= seq![flattened(rows, 0, n)]);
}

/// The cells of the first rows are those of these rows alone.
proof fn lemma_flattened_prefix(rows: Seq<RowModel>, n: int)
    requires
        0 <= n <= rows.len(),
    ensures
        flattened(rows.take(n), 0, n) == flattened(rows, 0, n),
        n == rows.len() - 1 ==> flattened(rows.drop_last(), 0, n) == flattened(rows, 0, n),
    decreases n,
{
    if n > 0 {
        lemma_flattened_prefix(rows, n - 1);
        lemma_flattened_same(rows.take(n), rows, n - 1);
    }
    lemma_flattened_same(rows.take(n), rows, n);
    if n == rows.len() - 1 {
        lemma_flattened_same(rows.drop_last(), rows, n);
    }
}

proof fn lemma_flattened_same(a: Seq<RowModel>, b: Seq<RowModel>, n: int)
    requires
        n <= a.len(),
        n <= b.len(),
        forall|i: int| 0 <= i < n ==> #[trigger] a[i] == b[i],
    ensures
        flattened(a, 0, n) == flattened(b, 0, n),
    decreases n,
{
    if n > 0 {
        lemma_flattened_same(a, b, n - 1);
        assert(a[n - 1] == b[n - 1]);
    }
}

/// The cells of rows further on.
proof fn lemma_flattened_shifted(all: Seq<RowModel>, start: int, end: int, total: int)
    requires
        0 <= start <= end <= total <= all.len(),
    ensures
        flattened(all.subrange(start, total), 0, end - start) == flattened(all, start, end),
    decreases end - start,
{
    if start < end {
        lemma_flattened_shifted(all, start, end - 1, total);
    }
}

/// A line ends with the first row that does not wrap.
proof fn lemma_line_wraps(all: Seq<RowModel>, row: int)
    requires
        0 <= row < all.len(),
    ensures
        forall|i: int| row <= i < line_end(all, row) ==> (#[trigger] all[i]).wrapped,
        line_end(all, row) + 1 < all.len() ==> !all[line_end(all, row)].wrapped,
    decreases all.len() - row,
{
    if row + 1 < all.len() && all[row].wrapped {
        lemma_line_wraps(all, row + 1);
        lemma_line_end(all, row + 1);
    }
}

/// The first line of rows, and the lines after it.
proof fn lemma_first_line(all: Seq<RowModel>, start: int)
    requires
        0 <= start < all.len(),
    ensures
        ({
            let end = line_end(all, start);
            lines_of(all.subrange(start, all.len() as int)) == seq![flattened(all, start, end + 1)]
                + lines_of(all.subrange(end + 1, all.len() as int))
        }),
{
    let end = line_end(all, start);
    let n = all.len() as int;
    lemma_line_end(all, start);
    lemma_line_wraps(all, start);
    let line = all.subrange(start, end + 1);
    let rest = all.subrange(end + 1, n);
    assert(all.subrange(start, n) =~= line + rest);
    assert forall|i: int| 0 <= i < line.len() - 1 implies (#[trigger] line[i]).wrapped by {
        assert(all[start + i].wrapped);
    }
    lemma_one_line(line);
    lemma_flattened_shifted(all, start, end + 1, end + 1);
    if rest.len() == 0 {
        assert(line + rest =~= line);
        assert(lines_of(line) + lines_of(rest) =~= lines_of(line));
    } else {
        assert(line.last() == all[end]);
        lemma_lines_add(line, rest);
    }
}

// Trimming.

proof fn lemma_trimmed_add_blanks(cells: Seq<CellModel>, blanks: Seq<CellModel>)
    requires
        forall|i: int| 0 <= i < blanks.len() ==> #[trigger] blanks[i] == CellModel::blank(),
    ensures
        blanks_trimmed(cells + blanks) == blanks_trimmed(cells),
    decreases blanks.len(),
{
    if blanks.len() == 0 {
        assert(cells + blanks =~= cells);
    } else {
        let all = cells + blanks;
        assert(all.last() == blanks[blanks.len() - 1]);
        assert(all.drop_last() =~= cells + blanks.drop_last());
        lemma_trimmed_add_blanks(cells, blanks.drop_last());
    }
}

proof fn lemma_trimmed_twice(cells: Seq<CellModel>)
    ensures
        blanks_trimmed(blanks_trimmed(cells)) == blanks_trimmed(cells),
    decreases cells.len(),
{
    if cells.len() > 0 && cells.last() == CellModel::blank() {
        lemma_trimmed_twice(cells.drop_last());
    }
}

/// A blank row at the end adds no line.
proof fn lemma_blank_row_at_end(rows: Seq<RowModel>)
    requires
        rows.len() > 0,
        rows.last().is_blank(),
    ensures
        logical_lines(rows) == logical_lines(rows.drop_last()),
{
    let before = lines_of(rows.drop_last());
    let cells = rows.last().cells;
    lemma_lines_count(rows.drop_last());
    let lines = lines_of(rows);
    if rows.len() > 1 && rows[rows.len() - 2].wrapped {
        lemma_trimmed_add_blanks(before.last(), cells);
        assert(lines_trimmed(lines) =~= lines_trimmed(before));
    } else {
        lemma_trimmed_add_blanks(Seq::empty(), cells);
        assert(Seq::<CellModel>::empty() + cells =~= cells);
        assert(lines_trimmed(lines).drop_last() =~= lines_trimmed(before));
        assert(lines_trimmed(lines).last().len() == 0);
    }
}

proof fn lemma_blank_rows_at_end(rows: Seq<RowModel>, blanks: Seq<RowModel>)
    requires
        forall|i: int| 0 <= i < blanks.len() ==> (#[trigger] blanks[i]).is_blank(),
    ensures
        logical_lines(rows + blanks) == logical_lines(rows),
    decreases blanks.len(),
{
    let all = rows + blanks;
    if blanks.len() == 0 {
        assert(all =~= rows);
    } else {
        assert(blanks[blanks.len() - 1].is_blank());
        assert(all.last() == blanks[blanks.len() - 1]);
        assert(all.drop_last() =~= rows + blanks.drop_last());
        lemma_blank_rows_at_end(rows, blanks.drop_last());
        lemma_blank_row_at_end(all);
    }
}

proof fn lemma_blank_tail(rows: Seq<RowModel>, keep: int, cursor_row: int)
    ensures
        logical_lines(blank_tail_dropped(rows, keep, cursor_row)) == logical_lines(rows),
    decreases rows.len(),
{
    if rows.len() > keep && rows.len() - 1 > cursor_row && rows.len() > 0
        && rows.last().is_blank() {
        lemma_blank_row_at_end(rows);
        lemma_blank_tail(rows.drop_last(), keep, cursor_row);
    }
}

// Wrapping anew.

/// Whether cells hold no wide characters.
pub open spec fn narrow(cells: Seq<CellModel>) -> bool {
    forall|i: int| 0 <= i < cells.len() ==> !(#[trigger] cells[i]).wide && !cells[i].continuation
}

pub open spec fn rows_narrow(rows: Seq<RowModel>) -> bool {
    forall|i: int| 0 <= i < rows.len() ==> narrow((#[trigger] rows[i]).cells)
}

/// The cells of chunks, one after the other.
spec fn chunks_flat(chunks: Seq<Seq<CellModel>>) -> Seq<CellModel>
    decreases chunks.len(),
{
    if chunks.len() == 0 {
        Seq::empty()
    } else {
        chunks_flat(chunks.drop_last()) + chunks.last()
    }
}

/// Narrow cells fill rows one after the other.
proof fn lemma_chunks_full(cells: Seq<CellModel>, n: int, width: int, offset: Option<int>)
    requires
        0 <= n <= cells.len(),
        width > 0,
        narrow(cells),
    ensures
        ({
            let rows = chunked(cells, n, width, offset).rows;
            &&& rows.len() > 0
            &&& chunks_flat(rows) == cells.take(n)
            &&& rows.last().len() <= width
            &&& forall|k: int| 0 <= k < rows.len() - 1 ==> (#[trigger] rows[k]).len() == width
        }),
    decreases n,
{
    if n <= 0 {
        let rows = chunked(cells, n, width, offset).rows;
        assert(rows.drop_last() =~= Seq::<Seq<CellModel>>::empty());
        assert(chunks_flat(rows.drop_last()) =~= Seq::<CellModel>::empty());
        assert(chunks_flat(rows) =~= cells.take(0));
    } else {
        lemma_chunks_full(cells, n - 1, width, offset);
        let before = chunked(cells, n - 1, width, offset);
        let cell = cells[n - 1];
        assert(!cell.wide && !cell.continuation);
        let room = before.room_for(cell, width);
        let rows = chunked(cells, n, width, offset).rows;
        let at = room.len() - 1;
        assert(rows == room.update(at, room[at].push(cell)));
        assert(rows.drop_last() =~= room.drop_last());
        if before.rows.last().len() >= width {
            assert(room.drop_last() =~= before.rows);
            assert(rows.last() =~= seq![cell]);
            assert(chunks_flat(rows) =~= chunks_flat(before.rows).push(cell));
        } else {
            assert(room == before.rows);
            assert(rows.last() == before.rows.last().push(cell));
            assert(chunks_flat(rows) =~= chunks_flat(before.rows).push(cell));
        }
        assert(cells.take(n) =~= cells.take(n - 1).push(cell));
        assert forall|k: int| 0 <= k < rows.len() - 1 implies (#[trigger] rows[k]).len() == width by {
            assert(rows[k] == room[k]);
            if k < before.rows.len() - 1 {
                assert(before.rows[k].len() == width);
            }
        }
    }
}

/// The cells of the rows that chunks become: those of the chunks, and blank ones.
proof fn lemma_line_rows_flat(chunks: Seq<Seq<CellModel>>, k: int, width: int, placeholder: bool)
    requires
        0 <= k < chunks.len(),
        forall|j: int| 0 <= j < chunks.len() - 1 ==> (#[trigger] chunks[j]).len() == width,
    ensures
        flattened(line_rows(chunks, width, placeholder), 0, k) == chunks_flat(chunks.take(k)),
    decreases k,
{
    let rows = line_rows(chunks, width, placeholder);
    if k > 0 {
        lemma_line_rows_flat(chunks, k - 1, width, placeholder);
        assert(chunks[k - 1].len() == width);
        assert(rows[k - 1].cells =~= chunks[k - 1]);
        assert(chunks.take(k).drop_last() =~= chunks.take(k - 1));
    } else {
        assert(chunks.take(0) =~= Seq::<Seq<CellModel>>::empty());
    }
}

/// One line wrapped anew is the same line.
proof fn lemma_line_kept(cells: Seq<CellModel>, width: int, offset: Option<int>, placeholder: bool)
    requires
        width > 0,
        narrow(cells),
    ensures
        ({
            let chunks = chunked(cells, cells.len() as int, width, offset).rows;
            let rows = line_rows(chunks, width, placeholder);
            &&& rows.len() > 0
            &&& !rows.last().wrapped
            &&& lines_trimmed(lines_of(rows)) == seq![blanks_trimmed(cells)]
        }),
{
    let n = cells.len() as int;
    let chunks = chunked(cells, n, width, offset).rows;
    let rows = line_rows(chunks, width, placeholder);
    lemma_chunks_full(cells, n, width, offset);
    assert(cells.take(n) =~= cells);
    let last = chunks.len() - 1;
    lemma_line_rows_flat(chunks, last, width, placeholder);
    assert(chunks.take(last) =~= chunks.drop_last());
    let blanks = Seq::new((width - chunks[last].len()) as nat, |i: int| CellModel::blank());
    assert(rows[last].cells =~= chunks[last] + blanks);
    let flat = flattened(rows, 0, rows.len() as int);
    assert(flat =~= cells + blanks);
    lemma_trimmed_add_blanks(cells, blanks);
    assert forall|i: int| 0 <= i < rows.len() - 1 implies (#[trigger] rows[i]).wrapped by {}
    lemma_one_line(rows);
    assert(lines_trimmed(lines_of(rows)) =~= seq![blanks_trimmed(cells)]);
}

proof fn lemma_narrow_flattened(all: Seq<RowModel>, start: int, end: int)
    requires
        rows_narrow(all),
        0 <= start,
        end <= all.len(),
    ensures
        narrow(flattened(all, start, end)),
    decreases end - start,
{
    if start < end {
        lemma_narrow_flattened(all, start, end - 1);
        assert(narrow(all[end - 1].cells));
    }
}

proof fn lemma_narrow_trimmed(cells: Seq<CellModel>)
    requires
        narrow(cells),
    ensures
        narrow(blanks_trimmed(cells)),
    decreases cells.len(),
{
    if cells.len() > 0 && cells.last() == CellModel::blank() {
        assert forall|i: int| 0 <= i < cells.drop_last().len() implies !(
        #[trigger] cells.drop_last()[i]).wide && !cells.drop_last()[i].continuation by {
            assert(!cells[i].wide && !cells[i].continuation);
        }
        lemma_narrow_trimmed(cells.drop_last());
    }
}

/// Lines wrapped anew are the same lines.
pub proof fn law_wrapping_anew_keeps_every_line(
    all: Seq<RowModel>,
    start: int,
    cursor_row: int,
    cursor_col: int,
    width: int,
    state: ReflowModel,
)
    requires
        0 <= start <= all.len(),
        width > 0,
        rows_narrow(all),
        state.out.len() > 0 ==> !state.out.last().wrapped,
    ensures
        lines_trimmed(
            lines_of(reflow_lines(all, start, cursor_row, cursor_col, width, state).out),
        ) == lines_trimmed(lines_of(state.out)) + lines_trimmed(
            lines_of(all.subrange(start, all.len() as int)),
        ),
    decreases all.len() - start,
{
    let n = all.len() as int;
    if start >= n {
        assert(all.subrange(start, n) =~= Seq::<RowModel>::empty());
        assert(lines_trimmed(lines_of(state.out)) + lines_trimmed(lines_of(all.subrange(start, n)))
            =~= lines_trimmed(lines_of(state.out)));
    } else {
        let end = line_end(all, start);
        lemma_line_end(all, start);
        let next = reflow_line(all, start, end, cursor_row, cursor_col, width, state);
        let flat = flattened(all, start, end + 1);
        let cells = blanks_trimmed(flat);
        let offset = cursor_in_line(all, start, end, cursor_row, cursor_col);
        let placeholder = any_placeholder(all, start, end + 1);
        let rows = line_rows(
            chunked(cells, cells.len() as int, width, offset).rows,
            width,
            placeholder,
        );
        lemma_narrow_flattened(all, start, end + 1);
        lemma_narrow_trimmed(flat);
        lemma_trimmed_twice(flat);
        lemma_line_kept(cells, width, offset, placeholder);
        assert(next.out == state.out + rows);
        assert(next.out.last() == rows.last());
        lemma_lines_add(state.out, rows);
        law_wrapping_anew_keeps_every_line(all, end + 1, cursor_row, cursor_col, width, next);
        lemma_first_line(all, start);
        let rest = lines_of(all.subrange(end + 1, n));
        assert(lines_trimmed(lines_of(next.out)) =~= lines_trimmed(lines_of(state.out))
            + lines_trimmed(lines_of(rows)));
        assert(lines_trimmed(seq![flat] + rest) =~= seq![cells] + lines_trimmed(rest));
        assert(lines_trimmed(lines_of(state.out)) + seq![cells] + lines_trimmed(rest)
            =~= lines_trimmed(lines_of(state.out)) + (seq![cells] + lines_trimmed(rest)));
    }
}

/// Whether another width leaves room for every line: above the screen in the scrollback,
/// and below the cursor on the screen.
spec fn width_has_room(grid: GridModel, cols: u16) -> bool {
    let rows = grid.rewrapped_rows(cols);
    let start = rows.len() - grid.rows.len();
    &&& start <= grid.scrollback_len
    &&& grid.rewrapped(cols).cursor matches Some(cursor) ==> start <= cursor.0
}

/// Whether another number of rows leaves room for every line: what has to leave the screen
/// fits in the scrollback or is blank.
spec fn height_has_room(grid: GridModel, target: int) -> bool
    decreases grid.rows.len(),
{
    let last = grid.rows.len() - 1;
    if grid.rows.len() <= target || target < 0 {
        true
    } else if last > grid.pos.row && (grid.pos.row == 0 || grid.rows[last].is_blank()) {
        grid.rows[last].is_blank() && height_has_room(
            GridModel { rows: grid.rows.drop_last(), ..grid },
            target,
        )
    } else {
        grid.scrollback.len() < grid.scrollback_len && height_has_room(
            GridModel {
                rows: grid.rows.remove(0),
                pos: Pos { row: max_int(grid.pos.row - 1, 0) as u16, ..grid.pos },
                saved_pos: Pos { row: max_int(grid.saved_pos.row - 1, 0) as u16, ..grid.saved_pos },
                ..grid.with_history(grid.rows[0])
            },
            target,
        )
    }
}

/// The rows that another width leaves hold the lines wrapped anew.
proof fn lemma_width_keeps_rows(grid: GridModel, cols: u16)
    requires
        grid.wf(),
        grid.allocated(),
        cols > 0,
        width_has_room(grid, cols),
    ensures
        ({
            let after = grid.with_columns(cols);
            logical_lines(after.scrollback + after.rows) == logical_lines(grid.rewrapped(cols).out)
        }),
{
    let all = grid.scrollback + grid.rows;
    let none = ReflowModel { out: Seq::empty(), cursor: None };
    let lines = grid.rewrapped(cols);
    let row = grid.scrollback.len() + grid.pos.row;
    lemma_reflow_lines(all, 0, row, grid.pos.col as int, cols as int, none);
    let cursor = match lines.cursor {
        Some(cursor) => cursor,
        None => (max_int(lines.out.len() - 1, 0), 0),
    };
    lemma_blank_tail(lines.out, grid.rows.len() as int, cursor.0);
    let kept = grid.rewrapped_rows(cols);
    let start = min_int(max_int(kept.len() - grid.rows.len(), 0), cursor.0);
    let after = grid.with_columns(cols);
    assert(start == max_int(kept.len() - grid.rows.len(), 0)) by {
        lemma_kept(lines.out, grid.rows.len() as int, cursor.0);
    }
    assert(after.scrollback =~= kept.take(start));
    let shown = kept.len() - start;
    let blanks = after.rows.subrange(shown, after.rows.len() as int);
    assert forall|i: int| 0 <= i < blanks.len() implies (#[trigger] blanks[i]).is_blank() by {
        assert(blanks[i] == after.rows[shown + i]);
    }
    assert(after.scrollback + after.rows =~= kept + blanks);
    lemma_blank_rows_at_end(kept, blanks);
}

proof fn lemma_width_keeps_lines(grid: GridModel, cols: u16)
    requires
        grid.wf(),
        grid.allocated(),
        cols > 0,
        rows_narrow(grid.scrollback + grid.rows),
        width_has_room(grid, cols),
    ensures
        ({
            let after = grid.with_columns(cols);
            logical_lines(after.scrollback + after.rows) == logical_lines(
                grid.scrollback + grid.rows,
            )
        }),
{
    let all = grid.scrollback + grid.rows;
    let none = ReflowModel { out: Seq::empty(), cursor: None };
    let row = grid.scrollback.len() + grid.pos.row;
    law_wrapping_anew_keeps_every_line(all, 0, row, grid.pos.col as int, cols as int, none);
    assert(all.subrange(0, all.len() as int) =~= all);
    assert(lines_trimmed(lines_of(none.out)) + lines_trimmed(lines_of(all)) =~= lines_trimmed(
        lines_of(all),
    ));
    lemma_width_keeps_rows(grid, cols);
}

proof fn lemma_kept(rows: Seq<RowModel>, keep: int, cursor_row: int)
    ensures
        blank_tail_dropped(rows, keep, cursor_row).len() <= rows.len(),
    decreases rows.len(),
{
    if rows.len() > keep && rows.len() - 1 > cursor_row && rows.len() > 0
        && rows.last().is_blank() {
        lemma_kept(rows.drop_last(), keep, cursor_row);
    }
}

proof fn lemma_dropped_keeps_lines(grid: GridModel, target: int)
    requires
        height_has_room(grid, target),
        grid.rows.len() > 0,
        target > 0,
    ensures
        ({
            let after = grid.rows_dropped(target);
            logical_lines(after.scrollback + after.rows) == logical_lines(
                grid.scrollback + grid.rows,
            )
        }),
    decreases grid.rows.len(),
{
    let last = grid.rows.len() - 1;
    if grid.rows.len() > target {
        let all = grid.scrollback + grid.rows;
        if last > grid.pos.row && (grid.pos.row == 0 || grid.rows[last].is_blank()) {
            let next = GridModel { rows: grid.rows.drop_last(), ..grid };
            assert(all.last() == grid.rows[last]);
            assert(all.drop_last() =~= next.scrollback + next.rows);
            lemma_blank_row_at_end(all);
            lemma_dropped_keeps_lines(next, target);
        } else {
            let next = GridModel {
                rows: grid.rows.remove(0),
                pos: Pos { row: max_int(grid.pos.row - 1, 0) as u16, ..grid.pos },
                saved_pos: Pos { row: max_int(grid.saved_pos.row - 1, 0) as u16, ..grid.saved_pos },
                ..grid.with_history(grid.rows[0])
            };
            assert(next.scrollback =~= grid.scrollback.push(grid.rows[0]));
            assert(next.scrollback + next.rows =~= all);
            lemma_dropped_keeps_lines(next, target);
        }
    }
}

proof fn lemma_added_keeps_lines(grid: GridModel, target: int)
    ensures
        ({
            let after = grid.rows_added(target);
            logical_lines(after.scrollback + after.rows) == logical_lines(
                grid.scrollback + grid.rows,
            )
        }),
    decreases target - grid.rows.len(),
{
    if grid.rows.len() < target {
        let all = grid.scrollback + grid.rows;
        if grid.scrollback.len() > 0 {
            let next = GridModel {
                rows: grid.rows.insert(0, grid.scrollback.last()),
                scrollback: grid.scrollback.drop_last(),
                pos: Pos { row: min_int(grid.pos.row + 1, u16::MAX as int) as u16, ..grid.pos },
                saved_pos: Pos {
                    row: min_int(grid.saved_pos.row + 1, u16::MAX as int) as u16,
                    ..grid.saved_pos
                },
                ..grid
            };
            assert(next.scrollback + next.rows =~= all);
            lemma_added_keeps_lines(next, target);
        } else {
            let next = GridModel { rows: grid.rows.push(grid.blank_row()), ..grid };
            let more = next.scrollback + next.rows;
            assert(more.drop_last() =~= all);
            assert(more.last() == grid.blank_row());
            lemma_blank_row_at_end(more);
            lemma_added_keeps_lines(next, target);
        }
    }
}

/// Every logical line stays at a size that has room.
proof fn lemma_resizing_keeps_lines(grid: GridModel, size: Size)
    requires
        grid.wf(),
        grid.allocated(),
        rows_narrow(grid.scrollback + grid.rows),
        ({
            let to = Size { rows: at_least_one(size.rows), cols: at_least_one(size.cols) };
            if to.cols != grid.size.cols {
                width_has_room(grid, to.cols) && height_has_room(
                    grid.with_columns(to.cols),
                    to.rows as int,
                )
            } else {
                height_has_room(grid, to.rows as int)
            }
        }),
    ensures
        ({
            let after = grid.reflowed(size);
            logical_lines(after.scrollback + after.rows) == logical_lines(
                grid.scrollback + grid.rows,
            )
        }),
{
    let to = Size { rows: at_least_one(size.rows), cols: at_least_one(size.cols) };
    let wrapped = if to.cols != grid.size.cols { grid.with_columns(to.cols) } else { grid };
    if to.cols != grid.size.cols {
        lemma_width_keeps_lines(grid, to.cols);
    }
    lemma_dropped_keeps_lines(wrapped, to.rows as int);
    lemma_added_keeps_lines(wrapped.rows_dropped(to.rows as int), to.rows as int);
}

// Lines with wide characters.

/// The cells that are not blank, in order.
pub open spec fn written(cells: Seq<CellModel>) -> Seq<CellModel>
    decreases cells.len(),
{
    if cells.len() == 0 {
        Seq::empty()
    } else if cells.last() == CellModel::blank() {
        written(cells.drop_last())
    } else {
        written(cells.drop_last()).push(cells.last())
    }
}

/// What is written in each line.
pub open spec fn all_written(lines: Seq<Seq<CellModel>>) -> Seq<Seq<CellModel>> {
    Seq::new(lines.len(), |i: int| written(lines[i]))
}

proof fn lemma_written_add(a: Seq<CellModel>, b: Seq<CellModel>)
    ensures
        written(a + b) == written(a) + written(b),
    decreases b.len(),
{
    if b.len() == 0 {
        assert(a + b =~= a);
        assert(written(a) + written(b) =~= written(a));
    } else {
        lemma_written_add(a, b.drop_last());
        assert((a + b).drop_last() =~= a + b.drop_last());
        assert((a + b).last() == b.last());
        assert(written(a + b) =~= written(a) + written(b));
    }
}

proof fn lemma_blanks_written(blanks: Seq<CellModel>)
    requires
        forall|i: int| 0 <= i < blanks.len() ==> #[trigger] blanks[i] == CellModel::blank(),
    ensures
        written(blanks) == Seq::<CellModel>::empty(),
    decreases blanks.len(),
{
    if blanks.len() > 0 {
        assert(blanks[blanks.len() - 1] == CellModel::blank());
        lemma_blanks_written(blanks.drop_last());
    }
}

/// Trimming leaves what is written, and something wherever something is written.
proof fn lemma_trimmed_written(cells: Seq<CellModel>)
    ensures
        written(blanks_trimmed(cells)) == written(cells),
        blanks_trimmed(cells).len() == 0 <==> written(cells).len() == 0,
    decreases cells.len(),
{
    if cells.len() > 0 && cells.last() == CellModel::blank() {
        lemma_trimmed_written(cells.drop_last());
    }
}

/// Lines in which the same is written are the same in number without the empty ones at the
/// end, too.
proof fn lemma_tail_written(a: Seq<Seq<CellModel>>, b: Seq<Seq<CellModel>>)
    requires
        all_written(a) == all_written(b),
    ensures
        all_written(empty_tail_dropped(lines_trimmed(a))) == all_written(
            empty_tail_dropped(lines_trimmed(b)),
        ),
    decreases a.len(),
{
    assert(all_written(a).len() == a.len());
    assert(all_written(b).len() == b.len());
    assert forall|i: int| 0 <= i < a.len() implies written(#[trigger] a[i]) == written(b[i]) by {
        assert(all_written(a)[i] == all_written(b)[i]);
    }
    let s = lines_trimmed(a);
    let t = lines_trimmed(b);
    if a.len() > 0 {
        let last = a.len() - 1;
        lemma_trimmed_written(a[last]);
        lemma_trimmed_written(b[last]);
        assert(s.last() == blanks_trimmed(a[last]));
        assert(t.last() == blanks_trimmed(b[last]));
        assert(written(a[last]) == written(b[last]));
        if s.last().len() == 0 {
            assert(s.drop_last() =~= lines_trimmed(a.drop_last()));
            assert(t.drop_last() =~= lines_trimmed(b.drop_last()));
            assert(all_written(a.drop_last()) =~= all_written(b.drop_last()));
            lemma_tail_written(a.drop_last(), b.drop_last());
        } else {
            assert forall|i: int| 0 <= i < a.len() implies written(s[i]) == written(t[i]) by {
                lemma_trimmed_written(a[i]);
                lemma_trimmed_written(b[i]);
                assert(written(a[i]) == written(b[i]));
            }
            assert(all_written(s) =~= all_written(t));
        }
    } else {
        assert(all_written(s) =~= all_written(t));
    }
}

/// Cells fill rows of two columns and more one after the other, but for a blank where a
/// wide character does not fit.
proof fn lemma_chunks_written(cells: Seq<CellModel>, n: int, width: int, offset: Option<int>)
    requires
        0 <= n <= cells.len(),
        width > 1,
    ensures
        ({
            let rows = chunked(cells, n, width, offset).rows;
            &&& rows.len() > 0
            &&& written(chunks_flat(rows)) == written(cells.take(n))
            &&& rows.last().len() <= width
            &&& forall|k: int| 0 <= k < rows.len() - 1 ==> (#[trigger] rows[k]).len() == width
        }),
    decreases n,
{
    if n <= 0 {
        let rows = chunked(cells, n, width, offset).rows;
        assert(rows.drop_last() =~= Seq::<Seq<CellModel>>::empty());
        assert(chunks_flat(rows.drop_last()) =~= Seq::<CellModel>::empty());
        assert(chunks_flat(rows) =~= cells.take(0));
    } else {
        lemma_chunks_written(cells, n - 1, width, offset);
        let before = chunked(cells, n - 1, width, offset);
        let cell = cells[n - 1];
        let room = before.room_for(cell, width);
        let rows = chunked(cells, n, width, offset).rows;
        let at = room.len() - 1;
        let flat = chunks_flat(before.rows);
        assert(rows == room.update(at, room[at].push(cell)));
        assert(rows.drop_last() =~= room.drop_last());
        let last = before.rows.last();
        if last.len() >= width {
            assert(room.drop_last() =~= before.rows);
            assert(rows.last() =~= seq![cell]);
            assert(chunks_flat(rows) =~= flat.push(cell));
            assert(chunks_flat(rows).drop_last() =~= flat);
        } else if cell.wide && last.len() == width - 1 {
            let filled = before.rows.update(
                before.rows.len() - 1,
                last.push(CellModel::blank()),
            );
            assert(room.drop_last() =~= filled);
            assert(filled.drop_last() =~= before.rows.drop_last());
            assert(rows.last() =~= seq![cell]);
            assert(chunks_flat(filled) =~= flat.push(CellModel::blank()));
            assert(chunks_flat(rows) =~= flat.push(CellModel::blank()).push(cell));
            assert(chunks_flat(rows).drop_last() =~= flat.push(CellModel::blank()));
            assert(flat.push(CellModel::blank()).drop_last() =~= flat);
            assert(written(flat.push(CellModel::blank())) == written(flat));
        } else {
            assert(room == before.rows);
            assert(rows.last() == last.push(cell));
            assert(chunks_flat(rows) =~= flat.push(cell));
            assert(chunks_flat(rows).drop_last() =~= flat);
        }
        assert(cells.take(n).drop_last() =~= cells.take(n - 1));
        assert(cells.take(n).last() == cell);
        assert(chunks_flat(rows).last() == cell);
        assert(written(chunks_flat(rows)) == written(cells.take(n)));
        assert forall|k: int| 0 <= k < rows.len() - 1 implies (#[trigger] rows[k]).len() == width by {
            assert(rows[k] == room[k]);
            if k < before.rows.len() - 1 {
                assert(before.rows[k].len() == width);
            }
        }
    }
}

/// In one line wrapped anew the same is written.
proof fn lemma_line_written(
    cells: Seq<CellModel>,
    width: int,
    offset: Option<int>,
    placeholder: bool,
)
    requires
        width > 1,
    ensures
        ({
            let chunks = chunked(cells, cells.len() as int, width, offset).rows;
            let rows = line_rows(chunks, width, placeholder);
            &&& rows.len() > 0
            &&& !rows.last().wrapped
            &&& all_written(lines_of(rows)) == seq![written(cells)]
        }),
{
    let n = cells.len() as int;
    let chunks = chunked(cells, n, width, offset).rows;
    let rows = line_rows(chunks, width, placeholder);
    lemma_chunks_written(cells, n, width, offset);
    assert(cells.take(n) =~= cells);
    let last = chunks.len() - 1;
    lemma_line_rows_flat(chunks, last, width, placeholder);
    assert(chunks.take(last) =~= chunks.drop_last());
    let blanks = Seq::new((width - chunks[last].len()) as nat, |i: int| CellModel::blank());
    assert(rows[last].cells =~= chunks[last] + blanks);
    let flat = flattened(rows, 0, rows.len() as int);
    assert(flat =~= chunks_flat(chunks) + blanks);
    lemma_written_add(chunks_flat(chunks), blanks);
    lemma_blanks_written(blanks);
    assert(written(flat) =~= written(cells));
    assert forall|i: int| 0 <= i < rows.len() - 1 implies (#[trigger] rows[i]).wrapped by {}
    lemma_one_line(rows);
    assert(all_written(lines_of(rows)) =~= seq![written(cells)]);
}

/// In lines wrapped anew in two columns and more the same is written, wide characters
/// included.
pub proof fn law_wrapping_anew_keeps_what_is_written(
    all: Seq<RowModel>,
    start: int,
    cursor_row: int,
    cursor_col: int,
    width: int,
    state: ReflowModel,
)
    requires
        0 <= start <= all.len(),
        width > 1,
        state.out.len() > 0 ==> !state.out.last().wrapped,
    ensures
        all_written(lines_of(reflow_lines(all, start, cursor_row, cursor_col, width, state).out))
            == all_written(lines_of(state.out)) + all_written(
            lines_of(all.subrange(start, all.len() as int)),
        ),
    decreases all.len() - start,
{
    let n = all.len() as int;
    if start >= n {
        assert(all.subrange(start, n) =~= Seq::<RowModel>::empty());
        assert(all_written(lines_of(state.out)) + all_written(lines_of(all.subrange(start, n)))
            =~= all_written(lines_of(state.out)));
    } else {
        let end = line_end(all, start);
        lemma_line_end(all, start);
        let next = reflow_line(all, start, end, cursor_row, cursor_col, width, state);
        let flat = flattened(all, start, end + 1);
        let cells = blanks_trimmed(flat);
        let offset = cursor_in_line(all, start, end, cursor_row, cursor_col);
        let placeholder = any_placeholder(all, start, end + 1);
        let rows = line_rows(
            chunked(cells, cells.len() as int, width, offset).rows,
            width,
            placeholder,
        );
        lemma_trimmed_written(flat);
        lemma_line_written(cells, width, offset, placeholder);
        assert(next.out == state.out + rows);
        assert(next.out.last() == rows.last());
        lemma_lines_add(state.out, rows);
        law_wrapping_anew_keeps_what_is_written(all, end + 1, cursor_row, cursor_col, width, next);
        lemma_first_line(all, start);
        let rest = lines_of(all.subrange(end + 1, n));
        assert(all_written(lines_of(next.out)) =~= all_written(lines_of(state.out)) + all_written(
            lines_of(rows),
        ));
        assert(all_written(seq![flat] + rest) =~= seq![written(flat)] + all_written(rest));
        assert(all_written(lines_of(state.out)) + seq![written(flat)] + all_written(rest)
            =~= all_written(lines_of(state.out)) + (seq![written(flat)] + all_written(rest)));
    }
}

proof fn lemma_width_keeps_written(grid: GridModel, cols: u16)
    requires
        grid.wf(),
        grid.allocated(),
        cols > 1,
        width_has_room(grid, cols),
    ensures
        ({
            let after = grid.with_columns(cols);
            all_written(logical_lines(after.scrollback + after.rows)) == all_written(
                logical_lines(grid.scrollback + grid.rows),
            )
        }),
{
    let all = grid.scrollback + grid.rows;
    let none = ReflowModel { out: Seq::empty(), cursor: None };
    let lines = grid.rewrapped(cols);
    let row = grid.scrollback.len() + grid.pos.row;
    law_wrapping_anew_keeps_what_is_written(all, 0, row, grid.pos.col as int, cols as int, none);
    assert(all.subrange(0, all.len() as int) =~= all);
    assert(all_written(lines_of(none.out)) + all_written(lines_of(all)) =~= all_written(
        lines_of(all),
    ));
    lemma_tail_written(lines_of(lines.out), lines_of(all));
    lemma_width_keeps_rows(grid, cols);
}

/// What is written stays at a size that has room.
proof fn lemma_resizing_keeps_written(grid: GridModel, size: Size)
    requires
        grid.wf(),
        grid.allocated(),
        ({
            let to = Size { rows: at_least_one(size.rows), cols: at_least_one(size.cols) };
            if to.cols != grid.size.cols {
                to.cols > 1 && width_has_room(grid, to.cols) && height_has_room(
                    grid.with_columns(to.cols),
                    to.rows as int,
                )
            } else {
                height_has_room(grid, to.rows as int)
            }
        }),
    ensures
        ({
            let after = grid.reflowed(size);
            all_written(logical_lines(after.scrollback + after.rows)) == all_written(
                logical_lines(grid.scrollback + grid.rows),
            )
        }),
{
    let to = Size { rows: at_least_one(size.rows), cols: at_least_one(size.cols) };
    let wrapped = if to.cols != grid.size.cols { grid.with_columns(to.cols) } else { grid };
    if to.cols != grid.size.cols {
        lemma_width_keeps_written(grid, to.cols);
    }
    lemma_dropped_keeps_lines(wrapped, to.rows as int);
    lemma_added_keeps_lines(wrapped.rows_dropped(to.rows as int), to.rows as int);
}

// Sizes with room.

/// The rows of a grid and its scrollback at a width, and the row of the cursor among them.
pub open spec fn rows_at_width(grid: GridModel, cols: u16) -> (Seq<RowModel>, int) {
    if cols == grid.size.cols {
        (grid.scrollback + grid.rows, grid.scrollback.len() + grid.pos.row)
    } else {
        let lines = grid.rewrapped(cols);
        (
            lines.out,
            match lines.cursor {
                Some(cursor) => cursor.0,
                None => max_int(lines.out.len() - 1, 0),
            },
        )
    }
}

/// The number of rows without the blank ones below the cursor.
pub open spec fn rows_in_use(rows: Seq<RowModel>, cursor_row: int) -> int {
    blank_tail_dropped(rows, 0, cursor_row).len() as int
}

/// Whether another size has room for every line. Lines are wrapped anew first, and the
/// height changes then: both before and after that, the rows in use fit in the scrollback
/// and on the screen, and those from the cursor on fit on the screen.
pub open spec fn resize_fits(grid: GridModel, size: Size) -> bool {
    let to = Size { rows: at_least_one(size.rows), cols: at_least_one(size.cols) };
    let (rows, cursor_row) = rows_at_width(grid, to.cols);
    let used = rows_in_use(rows, cursor_row);
    let height = min_int(grid.rows.len() as int, to.rows as int);
    &&& used <= grid.scrollback_len + height
    &&& used - cursor_row <= height
}

/// The rows in use, and those that are kept.
proof fn lemma_rows_in_use(rows: Seq<RowModel>, keep: int, cursor_row: int)
    requires
        0 <= cursor_row < rows.len(),
        0 <= keep,
    ensures
        ({
            let used = rows_in_use(rows, cursor_row);
            &&& cursor_row < used <= rows.len()
            &&& forall|i: int| used <= i < rows.len() ==> (#[trigger] rows[i]).is_blank()
            &&& blank_tail_dropped(rows, keep, cursor_row).len() == max_int(
                used,
                min_int(rows.len() as int, keep),
            )
        }),
    decreases rows.len(),
{
    if rows.len() - 1 > cursor_row && rows.last().is_blank() {
        let before = rows.drop_last();
        lemma_rows_in_use(before, keep, cursor_row);
        let used = rows_in_use(rows, cursor_row);
        assert forall|i: int| used <= i < rows.len() implies (#[trigger] rows[i]).is_blank() by {
            if i < before.len() {
                assert(before[i].is_blank());
            }
        }
    }
}

proof fn lemma_height_fits(grid: GridModel, used: int, target: int)
    requires
        target > 0,
        grid.pos.row < grid.rows.len(),
        grid.scrollback.len() + grid.pos.row < used <= grid.scrollback_len + target,
        used - (grid.scrollback.len() + grid.pos.row) <= target,
        forall|i: int|
            0 <= i < grid.rows.len() && used - grid.scrollback.len() <= i ==> (
            #[trigger] grid.rows[i]).is_blank(),
    ensures
        height_has_room(grid, target),
    decreases grid.rows.len(),
{
    let last = grid.rows.len() - 1;
    if grid.rows.len() > target {
        if last > grid.pos.row && (grid.pos.row == 0 || grid.rows[last].is_blank()) {
            let next = GridModel { rows: grid.rows.drop_last(), ..grid };
            assert(grid.rows[last].is_blank());
            assert forall|i: int|
                0 <= i < next.rows.len() && used - next.scrollback.len() <= i implies (
            #[trigger] next.rows[i]).is_blank() by {
                assert(grid.rows[i].is_blank());
            }
            lemma_height_fits(next, used, target);
        } else {
            let next = GridModel {
                rows: grid.rows.remove(0),
                pos: Pos { row: max_int(grid.pos.row - 1, 0) as u16, ..grid.pos },
                saved_pos: Pos { row: max_int(grid.saved_pos.row - 1, 0) as u16, ..grid.saved_pos },
                ..grid.with_history(grid.rows[0])
            };
            assert(last < used - grid.scrollback.len());
            assert(grid.scrollback.len() < grid.scrollback_len);
            assert(next.scrollback == grid.scrollback.push(grid.rows[0]));
            assert forall|i: int|
                0 <= i < next.rows.len() && used - next.scrollback.len() <= i implies (
            #[trigger] next.rows[i]).is_blank() by {
                assert(grid.rows[i + 1].is_blank());
            }
            lemma_height_fits(next, used, target);
        }
    }
}

/// What another width leaves of the rows in use.
proof fn lemma_width_fits(grid: GridModel, cols: u16, height: int)
    requires
        grid.wf(),
        grid.allocated(),
        cols > 0,
        cols != grid.size.cols,
        0 < height,
        ({
            let (rows, cursor_row) = rows_at_width(grid, cols);
            let used = rows_in_use(rows, cursor_row);
            &&& used <= grid.scrollback_len + min_int(grid.rows.len() as int, height)
            &&& used - cursor_row <= min_int(grid.rows.len() as int, height)
        }),
    ensures
        width_has_room(grid, cols),
        height_has_room(grid.with_columns(cols), height),
{
    let all = grid.scrollback + grid.rows;
    let none = ReflowModel { out: Seq::empty(), cursor: None };
    let row = grid.scrollback.len() + grid.pos.row;
    lemma_reflow_lines(all, 0, row, grid.pos.col as int, cols as int, none);
    let (rows, cursor) = rows_at_width(grid, cols);
    let used = rows_in_use(rows, cursor);
    let keep = grid.rows.len() as int;
    lemma_rows_in_use(rows, keep, cursor);
    lemma_blank_tail_dropped(rows, keep, cursor);
    let kept = grid.rewrapped_rows(cols);
    let start = min_int(max_int(kept.len() - keep, 0), cursor);
    let after = grid.with_columns(cols);
    assert(after.scrollback =~= kept.take(start));
    assert(after.pos.row == cursor - start);
    assert forall|i: int| 0 <= i < after.rows.len() && used - start <= i implies (
    #[trigger] after.rows[i]).is_blank() by {
        if start + i < kept.len() {
            assert(kept[start + i] == rows[start + i]);
            assert(rows[start + i].is_blank());
        }
    }
    lemma_height_fits(after, used, height);
}

/// A size that fits has room.
proof fn lemma_resize_fits(grid: GridModel, size: Size)
    requires
        grid.wf(),
        grid.allocated(),
        resize_fits(grid, size),
    ensures
        ({
            let to = Size { rows: at_least_one(size.rows), cols: at_least_one(size.cols) };
            if to.cols != grid.size.cols {
                width_has_room(grid, to.cols) && height_has_room(
                    grid.with_columns(to.cols),
                    to.rows as int,
                )
            } else {
                height_has_room(grid, to.rows as int)
            }
        }),
{
    let to = Size { rows: at_least_one(size.rows), cols: at_least_one(size.cols) };
    if to.cols != grid.size.cols {
        lemma_width_fits(grid, to.cols, to.rows as int);
    } else {
        let (rows, cursor) = rows_at_width(grid, to.cols);
        let used = rows_in_use(rows, cursor);
        lemma_rows_in_use(rows, 0, cursor);
        assert forall|i: int|
            0 <= i < grid.rows.len() && used - grid.scrollback.len() <= i implies (
        #[trigger] grid.rows[i]).is_blank() by {
            assert(rows[grid.scrollback.len() + i] == grid.rows[i]);
        }
        lemma_height_fits(grid, used, to.rows as int);
    }
}

/// Whatever size a grid gets, every logical line stays, in order, cell by cell: nothing is
/// lost, added or merged. Left out are grids with wide characters, which leave a blank
/// where they do not fit at the end of a row, and sizes without room for every line.
pub proof fn law_resizing_keeps_every_line(grid: GridModel, size: Size)
    requires
        grid.wf(),
        grid.allocated(),
        rows_narrow(grid.scrollback + grid.rows),
        resize_fits(grid, size),
    ensures
        ({
            let after = grid.reflowed(size);
            logical_lines(after.scrollback + after.rows) == logical_lines(
                grid.scrollback + grid.rows,
            )
        }),
{
    lemma_resize_fits(grid, size);
    lemma_resizing_keeps_lines(grid, size);
}

/// Whatever size a grid gets, the same is written in every logical line, in order, wide
/// characters included. Left out are a change to a single column, in which no wide
/// character fits, and sizes without room for every line.
pub proof fn law_resizing_keeps_what_is_written(grid: GridModel, size: Size)
    requires
        grid.wf(),
        grid.allocated(),
        size.cols > 1 || at_least_one(size.cols) == grid.size.cols,
        resize_fits(grid, size),
    ensures
        ({
            let after = grid.reflowed(size);
            all_written(logical_lines(after.scrollback + after.rows)) == all_written(
                logical_lines(grid.scrollback + grid.rows),
            )
        }),
{
    lemma_resize_fits(grid, size);
    lemma_resizing_keeps_written(grid, size);
}

// A cursor behind the text.

/// Whether nothing is written at the cursor, behind it on its row or below it.
pub open spec fn cursor_behind_text(grid: GridModel) -> bool {
    let row = grid.pos.row as int;
    &&& forall|i: int| row < i < grid.rows.len() ==> (#[trigger] grid.rows[i]).is_blank()
    &&& forall|j: int|
        grid.pos.col <= j < grid.rows[row].cells.len() ==> #[trigger] grid.rows[row].cells[j]
            == CellModel::blank()
}

/// The cells of rows, those of the last ones from a column on being blank.
proof fn lemma_flattened_blank(all: Seq<RowModel>, start: int, row: int, end: int, col: int)
    requires
        0 <= start <= row < end <= all.len(),
        0 <= col,
        forall|i: int| row < i < end ==> (#[trigger] all[i]).is_blank(),
        forall|j: int|
            col <= j < all[row].cells.len() ==> #[trigger] all[row].cells[j] == CellModel::blank(),
    ensures
        ({
            let cells = flattened(all, start, end);
            let from = flattened(all, start, row).len() + col;
            forall|i: int| from <= i < cells.len() ==> #[trigger] cells[i] == CellModel::blank()
        }),
    decreases end,
{
    let cells = flattened(all, start, end);
    let before = flattened(all, start, end - 1);
    let from = flattened(all, start, row).len() + col;
    if end - 1 > row {
        lemma_flattened_blank(all, start, row, end - 1, col);
        assert(all[end - 1].is_blank());
    }
    assert forall|i: int| from <= i < cells.len() implies #[trigger] cells[i]
        == CellModel::blank() by {
        if i < before.len() {
            assert(cells[i] == before[i]);
            if end - 1 == row {
                assert(before.len() <= from);
            }
        } else {
            assert(cells[i] == all[end - 1].cells[i - before.len()]);
        }
    }
}

/// Trimming takes away what is blank at the end.
proof fn lemma_trimmed_len(cells: Seq<CellModel>, from: int)
    requires
        0 <= from,
        forall|i: int| from <= i < cells.len() ==> #[trigger] cells[i] == CellModel::blank(),
    ensures
        blanks_trimmed(cells).len() <= from,
    decreases cells.len(),
{
    if cells.len() > from {
        assert(cells[cells.len() - 1] == CellModel::blank());
    }
    if cells.len() > 0 && cells.last() == CellModel::blank() {
        lemma_trimmed_len(cells.drop_last(), from);
    }
}

/// No cell of a line is under a cursor behind its end.
proof fn lemma_no_cell_under_cursor(cells: Seq<CellModel>, n: int, width: int, offset: int)
    requires
        n <= offset,
    ensures
        chunked(cells, n, width, Some(offset)).cursor is None,
    decreases n,
{
    if n > 0 {
        lemma_no_cell_under_cursor(cells, n - 1, width, offset);
    }
}

/// Rows behind a cursor that is behind the text are blank when they are wrapped anew.
proof fn lemma_rows_behind_cursor(
    all: Seq<RowModel>,
    start: int,
    cursor_row: int,
    cursor_col: int,
    width: int,
    state: ReflowModel,
)
    requires
        0 <= start <= all.len(),
        0 <= cursor_row < all.len(),
        0 <= cursor_col,
        width > 0,
        forall|i: int| cursor_row < i < all.len() ==> (#[trigger] all[i]).is_blank(),
        forall|j: int|
            cursor_col <= j < all[cursor_row].cells.len() ==> #[trigger] all[cursor_row].cells[j]
                == CellModel::blank(),
        start > cursor_row ==> {
            &&& state.cursor matches Some((row, _)) && 0 <= row < state.out.len() && forall|k: int|
                row < k < state.out.len() ==> (#[trigger] state.out[k]).is_blank()
        },
    ensures
        ({
            let after = reflow_lines(all, start, cursor_row, cursor_col, width, state);
            &&& after.cursor is Some
            &&& 0 <= after.cursor.unwrap().0 < after.out.len()
            &&& forall|k: int|
                after.cursor.unwrap().0 < k < after.out.len() ==> (#[trigger] after.out[k]).is_blank()
        }),
    decreases all.len() - start,
{
    if start < all.len() {
        let end = line_end(all, start);
        lemma_line_end(all, start);
        let next = reflow_line(all, start, end, cursor_row, cursor_col, width, state);
        let flat = flattened(all, start, end + 1);
        let cells = blanks_trimmed(flat);
        let n = cells.len() as int;
        let offset = cursor_in_line(all, start, end, cursor_row, cursor_col);
        let chunks = chunked(cells, n, width, offset);
        lemma_chunked(cells, n, width, offset);
        let rows = line_rows(chunks.rows, width, any_placeholder(all, start, end + 1));
        assert(next.out == state.out + rows);
        if start <= cursor_row <= end {
            let from = flattened(all, start, cursor_row).len() + cursor_col;
            lemma_flattened_blank(all, start, cursor_row, end + 1, cursor_col);
            lemma_trimmed_len(flat, from);
            lemma_no_cell_under_cursor(cells, n, width, from);
            assert(next.cursor.unwrap().0 == next.out.len() - 1);
        } else if start > cursor_row {
            assert(all[start].is_blank());
            lemma_flattened_blank(all, start, start, end + 1, 0);
            lemma_trimmed_len(flat, 0);
            assert(chunks.rows =~= seq![Seq::<CellModel>::empty()]);
            let row = state.cursor.unwrap().0;
            assert forall|k: int| row < k < next.out.len() implies (
            #[trigger] next.out[k]).is_blank() by {
                if k < state.out.len() {
                    assert(next.out[k] == state.out[k]);
                } else {
                    assert(next.out[k] == rows[0]);
                }
            }
        }
        lemma_rows_behind_cursor(all, end + 1, cursor_row, cursor_col, width, next);
    }
}

/// Behind such a cursor no row is in use.
proof fn lemma_used_to_cursor(rows: Seq<RowModel>, cursor_row: int)
    requires
        0 <= cursor_row < rows.len(),
        forall|k: int| cursor_row < k < rows.len() ==> (#[trigger] rows[k]).is_blank(),
    ensures
        rows_in_use(rows, cursor_row) == cursor_row + 1,
    decreases rows.len(),
{
    if rows.len() - 1 > cursor_row {
        assert(rows[rows.len() - 1].is_blank());
        lemma_used_to_cursor(rows.drop_last(), cursor_row);
    }
}

/// Where the cursor is behind the text of a grid, every size fits in which the rows down to
/// that of the cursor fit in the scrollback and on the screen.
pub proof fn law_sizes_fit_where_the_cursor_is_behind_the_text(grid: GridModel, size: Size)
    requires
        grid.wf(),
        grid.allocated(),
        cursor_behind_text(grid),
        ({
            let to = Size { rows: at_least_one(size.rows), cols: at_least_one(size.cols) };
            rows_at_width(grid, to.cols).1 < grid.scrollback_len + min_int(
                grid.rows.len() as int,
                to.rows as int,
            )
        }),
    ensures
        resize_fits(grid, size),
{
    let cols = at_least_one(size.cols);
    let all = grid.scrollback + grid.rows;
    let none = ReflowModel { out: Seq::empty(), cursor: None };
    let row = grid.scrollback.len() + grid.pos.row;
    assert(all[row as int] == grid.rows[grid.pos.row as int]);
    assert forall|i: int| row < i < all.len() implies (#[trigger] all[i]).is_blank() by {
        assert(all[i] == grid.rows[i - grid.scrollback.len()]);
    }
    assert forall|j: int| grid.pos.col <= j < all[row as int].cells.len() implies #[trigger] all[
        row as int].cells[j] == CellModel::blank() by {
        assert(grid.rows[grid.pos.row as int].cells[j] == CellModel::blank());
    }
    lemma_rows_behind_cursor(all, 0, row as int, grid.pos.col as int, cols as int, none);
    let (rows, cursor) = rows_at_width(grid, cols);
    lemma_used_to_cursor(rows, cursor);
}

} // verus!
