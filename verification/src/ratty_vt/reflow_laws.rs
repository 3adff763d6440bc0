//! What wrapping lines anew keeps: every character, the halves of wide ones, and the
//! cursor on its character.

use crate::ratty_vt::cell::CellModel;
use crate::ratty_vt::grid::{Pos, Size};
use crate::ratty_vt::grid_model::{
    any_placeholder, at_least_one, blank_tail_dropped, blanks_trimmed, chunked, cursor_in_line,
    flattened,
    lemma_chunked, lemma_line_end, lemma_reflow_lines, line_end, line_rows, max_int, min_int,
    reflow_line, reflow_lines, ChunkModel, GridModel, ReflowModel,
};
use crate::ratty_vt::row::RowModel;
use vstd::prelude::*;

verus! {

/// The cells that are not blank.
pub open spec fn glyphs(cells: Seq<CellModel>) -> Seq<CellModel>
    decreases cells.len(),
{
    if cells.len() == 0 {
        Seq::empty()
    } else if cells.last() == CellModel::blank() {
        glyphs(cells.drop_last())
    } else {
        glyphs(cells.drop_last()).push(cells.last())
    }
}

/// The cells of rows that are not blank.
pub open spec fn rows_glyphs(rows: Seq<RowModel>) -> Seq<CellModel>
    decreases rows.len(),
{
    if rows.len() == 0 {
        Seq::empty()
    } else {
        rows_glyphs(rows.drop_last()) + glyphs(rows.last().cells)
    }
}

/// Whether cells can be put into rows of a width: wide characters need two columns.
pub open spec fn can_wrap(cells: Seq<CellModel>, width: int) -> bool {
    width >= 2 || forall|i: int|
        0 <= i < cells.len() ==> !(#[trigger] cells[i]).wide && !cells[i].continuation
}

pub open spec fn rows_can_wrap(rows: Seq<RowModel>, width: int) -> bool {
    forall|i: int| 0 <= i < rows.len() ==> can_wrap((#[trigger] rows[i]).cells, width)
}

proof fn lemma_glyphs_push(cells: Seq<CellModel>, cell: CellModel)
    ensures
        glyphs(cells.push(cell)) == (if cell == CellModel::blank() {
            glyphs(cells)
        } else {
            glyphs(cells).push(cell)
        }),
{
    assert(cells.push(cell).drop_last() =~= cells);
}

proof fn lemma_glyphs_add(a: Seq<CellModel>, b: Seq<CellModel>)
    ensures
        glyphs(a + b) == glyphs(a) + glyphs(b),
    decreases b.len(),
{
    if b.len() == 0 {
        assert(a + b =~= a);
        assert(glyphs(a) + glyphs(b) =~= glyphs(a));
    } else {
        lemma_glyphs_add(a, b.drop_last());
        assert((a + b).drop_last() =~= a + b.drop_last());
        assert(glyphs(a) + glyphs(b.drop_last()).push(b.last()) =~= (glyphs(a) + glyphs(
            b.drop_last(),
        )).push(b.last()));
    }
}

proof fn lemma_glyphs_trimmed(cells: Seq<CellModel>)
    ensures
        glyphs(blanks_trimmed(cells)) == glyphs(cells),
    decreases cells.len(),
{
    if cells.len() > 0 && cells.last() == CellModel::blank() {
        lemma_glyphs_trimmed(cells.drop_last());
    }
}

proof fn lemma_trimmed_is_prefix(cells: Seq<CellModel>)
    ensures
        blanks_trimmed(cells).len() <= cells.len(),
        blanks_trimmed(cells) == cells.take(blanks_trimmed(cells).len() as int),
        forall|i: int|
            blanks_trimmed(cells).len() <= i < cells.len() ==> #[trigger] cells[i]
                == CellModel::blank(),
    decreases cells.len(),
{
    if cells.len() > 0 && cells.last() == CellModel::blank() {
        lemma_trimmed_is_prefix(cells.drop_last());
        let n = blanks_trimmed(cells).len() as int;
        assert(cells.drop_last().take(n) =~= cells.take(n));
        assert forall|i: int| n <= i < cells.len() implies #[trigger] cells[i]
            == CellModel::blank() by {
            if i < cells.len() - 1 {
                assert(cells.drop_last()[i] == CellModel::blank());
            }
        }
    } else {
        assert(cells.take(cells.len() as int) =~= cells);
    }
}

proof fn lemma_rows_glyphs_add(a: Seq<RowModel>, b: Seq<RowModel>)
    ensures
        rows_glyphs(a + b) == rows_glyphs(a) + rows_glyphs(b),
    decreases b.len(),
{
    if b.len() == 0 {
        assert(a + b =~= a);
        assert(rows_glyphs(a) + rows_glyphs(b) =~= rows_glyphs(a));
    } else {
        lemma_rows_glyphs_add(a, b.drop_last());
        assert((a + b).drop_last() =~= a + b.drop_last());
        assert(rows_glyphs(a) + (rows_glyphs(b.drop_last()) + glyphs(b.last().cells)) =~= (
        rows_glyphs(a) + rows_glyphs(b.drop_last())) + glyphs(b.last().cells));
    }
}

proof fn lemma_flattened(all: Seq<RowModel>, start: int, end: int)
    requires
        0 <= start <= end <= all.len(),
    ensures
        glyphs(flattened(all, start, end)) == rows_glyphs(all.subrange(start, end)),
    decreases end - start,
{
    if start < end {
        lemma_flattened(all, start, end - 1);
        lemma_glyphs_add(flattened(all, start, end - 1), all[end - 1].cells);
        assert(all.subrange(start, end).drop_last() =~= all.subrange(start, end - 1));
    }
}

/// The cells of chunks one after the other.
pub open spec fn joined_chunks(chunks: Seq<Seq<CellModel>>) -> Seq<CellModel>
    decreases chunks.len(),
{
    if chunks.len() == 0 {
        Seq::empty()
    } else {
        joined_chunks(chunks.drop_last()) + chunks.last()
    }
}

proof fn lemma_chunk_step(chunks: ChunkModel, cell: CellModel, width: int, under_cursor: bool)
    requires
        chunks.rows.len() > 0,
        width >= 2 || (!cell.wide && !cell.continuation),
    ensures
        ({
            let after = chunks.step(cell, width, under_cursor);
            glyphs(joined_chunks(after.rows)) == (if cell == CellModel::blank() {
                glyphs(joined_chunks(chunks.rows))
            } else {
                glyphs(joined_chunks(chunks.rows)).push(cell)
            })
        }),
{
    let rows = chunks.room_for(cell, width);
    let last = chunks.rows.last();
    let front = chunks.rows.drop_last();
    lemma_glyphs_add(joined_chunks(front), last);
    if last.len() >= width {
        assert(rows.drop_last() =~= chunks.rows);
        lemma_glyphs_add(joined_chunks(chunks.rows), rows.last());
    } else if cell.wide && last.len() == width - 1 {
        assert(rows.drop_last() =~= chunks.rows.update(
            chunks.rows.len() - 1,
            last.push(CellModel::blank()),
        ));
        assert(rows.drop_last().drop_last() =~= front);
        lemma_glyphs_push(last, CellModel::blank());
        lemma_glyphs_add(joined_chunks(front), last.push(CellModel::blank()));
        lemma_glyphs_add(joined_chunks(rows.drop_last()), rows.last());
    }
    assert(glyphs(Seq::<CellModel>::empty()) =~= Seq::empty());
    assert(glyphs(joined_chunks(rows)) =~= glyphs(joined_chunks(chunks.rows)));
    let at = rows.len() - 1;
    let after = rows.update(at, rows[at].push(cell));
    assert(after.drop_last() =~= rows.drop_last());
    lemma_glyphs_push(rows[at], cell);
    lemma_glyphs_add(joined_chunks(rows.drop_last()), rows[at]);
    lemma_glyphs_add(joined_chunks(rows.drop_last()), rows[at].push(cell));
    assert(glyphs(joined_chunks(rows.drop_last())) + glyphs(rows[at]).push(cell) =~= (glyphs(
        joined_chunks(rows.drop_last()),
    ) + glyphs(rows[at])).push(cell));
}

proof fn lemma_chunk_glyphs(cells: Seq<CellModel>, n: int, width: int, offset: Option<int>)
    requires
        0 <= n <= cells.len(),
        width > 0,
        can_wrap(cells, width),
    ensures
        glyphs(joined_chunks(chunked(cells, n, width, offset).rows)) == glyphs(cells.take(n)),
    decreases n,
{
    if n == 0 {
        reveal_with_fuel(joined_chunks, 2);
        let one = seq![Seq::<CellModel>::empty()];
        assert(one.drop_last() =~= Seq::<Seq<CellModel>>::empty());
        assert(joined_chunks(one) =~= one.last());
        assert(cells.take(0) =~= Seq::empty());
    } else {
        lemma_chunk_glyphs(cells, n - 1, width, offset);
        lemma_chunked(cells, n - 1, width, offset);
        lemma_chunk_step(
            chunked(cells, n - 1, width, offset),
            cells[n - 1],
            width,
            offset == Some(n - 1),
        );
        assert(cells.take(n).drop_last() =~= cells.take(n - 1));
    }
}

proof fn lemma_blank_tail(cells: Seq<CellModel>, n: int)
    requires
        0 <= n <= cells.len(),
        forall|i: int| n <= i < cells.len() ==> #[trigger] cells[i] == CellModel::blank(),
    ensures
        glyphs(cells) == glyphs(cells.take(n)),
    decreases cells.len() - n,
{
    if n < cells.len() {
        lemma_blank_tail(cells.drop_last(), n);
        assert(cells.drop_last().take(n) =~= cells.take(n));
        assert(cells.last() == cells[cells.len() - 1]);
    } else {
        assert(cells.take(n) =~= cells);
    }
}

proof fn lemma_line_rows(
    chunks: Seq<Seq<CellModel>>,
    rows: Seq<RowModel>,
    all: Seq<RowModel>,
    width: int,
    placeholder: bool,
    total: Seq<Seq<CellModel>>,
)
    requires
        all == line_rows(total, width, placeholder),
        chunks.len() <= total.len(),
        chunks == total.take(chunks.len() as int),
        rows == all.take(chunks.len() as int),
        forall|k: int| 0 <= k < total.len() ==> (#[trigger] total[k]).len() <= width,
        width > 0,
    ensures
        rows_glyphs(rows) == glyphs(joined_chunks(chunks)),
    decreases chunks.len(),
{
    if chunks.len() > 0 {
        let n = chunks.len() as int;
        assert(chunks.drop_last() =~= total.take(n - 1));
        assert(rows.drop_last() =~= all.take(n - 1));
        lemma_line_rows(chunks.drop_last(), rows.drop_last(), all, width, placeholder, total);
        let row = rows.last();
        assert(row == all[n - 1]);
        let chunk = chunks.last();
        assert(chunk == total[n - 1]);
        assert(row.cells.take(chunk.len() as int) =~= chunk);
        lemma_blank_tail(row.cells, chunk.len() as int);
        lemma_glyphs_add(joined_chunks(chunks.drop_last()), chunk);
    }
}

proof fn lemma_can_wrap_flattened(all: Seq<RowModel>, start: int, end: int, width: int)
    requires
        0 <= start <= end <= all.len(),
        rows_can_wrap(all, width),
    ensures
        can_wrap(flattened(all, start, end), width),
        can_wrap(blanks_trimmed(flattened(all, start, end)), width),
    decreases end - start,
{
    if start < end {
        lemma_can_wrap_flattened(all, start, end - 1, width);
        let before = flattened(all, start, end - 1);
        let after = flattened(all, start, end);
        if width < 2 {
            assert forall|i: int| 0 <= i < after.len() implies !(#[trigger] after[i]).wide
                && !after[i].continuation by {
                if i < before.len() {
                    assert(after[i] == before[i]);
                } else {
                    assert(can_wrap(all[end - 1].cells, width));
                    assert(after[i] == all[end - 1].cells[i - before.len()]);
                }
            }
        }
    }
    let cells = flattened(all, start, end);
    lemma_trimmed_is_prefix(cells);
    let trimmed = blanks_trimmed(cells);
    if width < 2 {
        assert forall|i: int| 0 <= i < trimmed.len() implies !(#[trigger] trimmed[i]).wide
            && !trimmed[i].continuation by {
            assert(trimmed[i] == cells[i]);
        }
    }
}

proof fn lemma_line_glyphs(
    all: Seq<RowModel>,
    start: int,
    end: int,
    cursor_row: int,
    cursor_col: int,
    width: int,
    state: ReflowModel,
)
    requires
        0 <= start <= end < all.len(),
        width > 0,
        rows_can_wrap(all, width),
    ensures
        rows_glyphs(
            reflow_line(all, start, end, cursor_row, cursor_col, width, state).out,
        ) == rows_glyphs(state.out) + rows_glyphs(all.subrange(start, end + 1)),
{
    let cells = blanks_trimmed(flattened(all, start, end + 1));
    let offset = cursor_in_line(all, start, end, cursor_row, cursor_col);
    let chunks = chunked(cells, cells.len() as int, width, offset);
    let rows = line_rows(chunks.rows, width, any_placeholder(all, start, end + 1));
    lemma_can_wrap_flattened(all, start, end + 1, width);
    lemma_chunk_glyphs(cells, cells.len() as int, width, offset);
    lemma_chunked(cells, cells.len() as int, width, offset);
    assert(cells.take(cells.len() as int) =~= cells);
    assert(chunks.rows.take(chunks.rows.len() as int) =~= chunks.rows);
    assert(rows.take(chunks.rows.len() as int) =~= rows);
    lemma_line_rows(
        chunks.rows,
        rows,
        rows,
        width,
        any_placeholder(all, start, end + 1),
        chunks.rows,
    );
    lemma_glyphs_trimmed(flattened(all, start, end + 1));
    lemma_flattened(all, start, end + 1);
    lemma_rows_glyphs_add(state.out, rows);
}

/// Wrapping lines anew loses no character and adds none, whatever the width: the cells
/// that are not blank are the same, in the same order. In a single column wide
/// characters have no place.
pub proof fn law_wrapping_anew_keeps_every_character(
    all: Seq<RowModel>,
    start: int,
    cursor_row: int,
    cursor_col: int,
    width: int,
    state: ReflowModel,
)
    requires
        0 <= start <= all.len(),
        width > 0,
        rows_can_wrap(all, width),
    ensures
        rows_glyphs(
            reflow_lines(all, start, cursor_row, cursor_col, width, state).out,
        ) == rows_glyphs(state.out) + rows_glyphs(all.subrange(start, all.len() as int)),
    decreases all.len() - start,
{
    if start >= all.len() {
        assert(rows_glyphs(state.out) + rows_glyphs(all.subrange(start, all.len() as int))
            =~= rows_glyphs(state.out));
    } else {
        let end = line_end(all, start);
        lemma_line_end(all, start);
        let next = reflow_line(all, start, end, cursor_row, cursor_col, width, state);
        lemma_line_glyphs(all, start, end, cursor_row, cursor_col, width, state);
        law_wrapping_anew_keeps_every_character(
            all,
            end + 1,
            cursor_row,
            cursor_col,
            width,
            next,
        );
        let line = all.subrange(start, end + 1);
        let rest = all.subrange(end + 1, all.len() as int);
        lemma_rows_glyphs_add(line, rest);
        assert(line + rest =~= all.subrange(start, all.len() as int));
        assert((rows_glyphs(state.out) + rows_glyphs(line)) + rows_glyphs(rest) =~= rows_glyphs(
            state.out,
        ) + (rows_glyphs(line) + rows_glyphs(rest)));
    }
}

proof fn lemma_blank_rows_dropped(rows: Seq<RowModel>, keep: int, cursor_row: int)
    ensures
        ({
            let kept = blank_tail_dropped(rows, keep, cursor_row);
            &&& kept.len() <= rows.len()
            &&& kept == rows.take(kept.len() as int)
            &&& rows_glyphs(kept) == rows_glyphs(rows)
            &&& 0 <= cursor_row < rows.len() ==> cursor_row < kept.len()
        }),
    decreases rows.len(),
{
    if rows.len() > keep && rows.len() - 1 > cursor_row && rows.len() > 0
        && rows.last().is_blank() {
        lemma_blank_rows_dropped(rows.drop_last(), keep, cursor_row);
        let kept = blank_tail_dropped(rows, keep, cursor_row);
        assert(rows.drop_last().take(kept.len() as int) =~= rows.take(kept.len() as int));
        let cells = rows.last().cells;
        lemma_blank_tail(cells, 0);
        assert(cells.take(0) =~= Seq::empty());
        assert(rows_glyphs(rows) =~= rows_glyphs(rows.drop_last()));
    } else {
        assert(rows.take(rows.len() as int) =~= rows);
    }
}

proof fn lemma_blank_rows(rows: Seq<RowModel>)
    requires
        forall|i: int| 0 <= i < rows.len() ==> (#[trigger] rows[i]).is_blank(),
    ensures
        rows_glyphs(rows) == Seq::<CellModel>::empty(),
    decreases rows.len(),
{
    if rows.len() > 0 {
        lemma_blank_rows(rows.drop_last());
        let last = rows[rows.len() - 1];
        assert(last.is_blank());
        lemma_blank_tail(last.cells, 0);
        assert(last.cells.take(0) =~= Seq::empty());
        assert(rows_glyphs(rows) =~= Seq::<CellModel>::empty());
    }
}

impl GridModel {
    /// The rows of a grid and its scrollback, wrapped anew at a width, and the cursor
    /// among them.
    pub open spec fn rewrapped(self, cols: u16) -> ReflowModel {
        reflow_lines(
            self.scrollback + self.rows,
            0,
            self.scrollback.len() + self.pos.row,
            self.pos.col as int,
            cols as int,
            ReflowModel { out: Seq::empty(), cursor: None },
        )
    }

    /// The rows to be shown and kept at a width.
    pub open spec fn rewrapped_rows(self, cols: u16) -> Seq<RowModel> {
        let lines = self.rewrapped(cols);
        let cursor = match lines.cursor {
            Some(cursor) => cursor.0,
            None => max_int(lines.out.len() - 1, 0),
        };
        blank_tail_dropped(lines.out, self.rows.len() as int, cursor)
    }
}

/// A grid at another width still has every character, unless the lines above it do not
/// fit in the scrollback any more, or those below the cursor on the screen.
pub proof fn law_another_width_keeps_the_text(grid: GridModel, cols: u16)
    requires
        grid.wf(),
        grid.allocated(),
        cols > 0,
        rows_can_wrap(grid.scrollback + grid.rows, cols as int),
        ({
            let rows = grid.rewrapped_rows(cols);
            let start = rows.len() - grid.rows.len();
            &&& start <= grid.scrollback_len
            &&& grid.rewrapped(cols).cursor matches Some(cursor) ==> start <= cursor.0
        }),
    ensures
        ({
            let after = grid.with_columns(cols);
            rows_glyphs(after.scrollback + after.rows) == rows_glyphs(grid.scrollback + grid.rows)
        }),
{
    let all = grid.scrollback + grid.rows;
    let lines = grid.rewrapped(cols);
    law_wrapping_anew_keeps_every_character(
        all,
        0,
        grid.scrollback.len() + grid.pos.row,
        grid.pos.col as int,
        cols as int,
        ReflowModel { out: Seq::empty(), cursor: None },
    );
    assert(all.subrange(0, all.len() as int) =~= all);
    assert(rows_glyphs(Seq::<RowModel>::empty()) + rows_glyphs(all) =~= rows_glyphs(all));
    let cursor = match lines.cursor {
        Some(cursor) => cursor,
        None => (max_int(lines.out.len() - 1, 0), 0),
    };
    lemma_blank_rows_dropped(lines.out, grid.rows.len() as int, cursor.0);
    let kept = grid.rewrapped_rows(cols);
    let start = min_int(max_int(kept.len() - grid.rows.len(), 0), cursor.0);
    let after = grid.with_columns(cols);
    lemma_reflow_lines(
        all,
        0,
        grid.scrollback.len() + grid.pos.row,
        grid.pos.col as int,
        cols as int,
        ReflowModel { out: Seq::empty(), cursor: None },
    );
    assert(start == max_int(kept.len() - grid.rows.len(), 0));
    assert(after.scrollback =~= kept.take(start));
    let shown = kept.len() - start;
    let blanks = after.rows.subrange(shown, after.rows.len() as int);
    assert forall|i: int| 0 <= i < blanks.len() implies (#[trigger] blanks[i]).is_blank() by {
        assert(blanks[i] == after.rows[shown + i]);
    }
    lemma_blank_rows(blanks);
    assert(after.scrollback + after.rows =~= kept + blanks);
    lemma_rows_glyphs_add(kept, blanks);
    assert(rows_glyphs(kept) + rows_glyphs(blanks) =~= rows_glyphs(kept));
}

/// Where a line that is cut into rows has the cell under the cursor.
proof fn lemma_chunk_cursor(cells: Seq<CellModel>, n: int, width: int, offset: int)
    requires
        0 <= offset,
        0 <= n <= cells.len(),
        width > 0,
        can_wrap(cells, width),
    ensures
        ({
            let chunks = chunked(cells, n, width, Some(offset));
            offset < n ==> (chunks.cursor matches Some((row, col)) && 0 <= row < chunks.rows.len()
                && 0 <= col < chunks.rows[row].len() && chunks.rows[row][col] == cells[offset])
        }),
    decreases n,
{
    if n > 0 {
        lemma_chunk_cursor(cells, n - 1, width, offset);
        lemma_chunked(cells, n - 1, width, Some(offset));
        let before = chunked(cells, n - 1, width, Some(offset));
        let after = chunked(cells, n, width, Some(offset));
        let rows = before.room_for(cells[n - 1], width);
        assert(after == before.step(cells[n - 1], width, offset == n - 1));
        if offset < n - 1 {
            let (row, col) = before.cursor->0;
            assert(rows[row][col] == cells[offset]);
            assert(after.rows[row][col] == cells[offset]);
        }
    }
}

/// Whether the cursor is on a cell of some rows.
pub open spec fn cursor_on(state: ReflowModel, cell: CellModel) -> bool {
    state.cursor matches Some((row, col)) && 0 <= row < state.out.len() && 0 <= col
        < state.out[row].cells.len() && state.out[row].cells[col] == cell
}

proof fn lemma_line_cursor(
    all: Seq<RowModel>,
    start: int,
    end: int,
    cursor_row: int,
    cursor_col: int,
    width: int,
    state: ReflowModel,
)
    requires
        0 <= start <= end < all.len(),
        start <= cursor_row <= end,
        0 <= cursor_col,
        width > 0,
        rows_can_wrap(all, width),
        flattened(all, start, cursor_row).len() + cursor_col < blanks_trimmed(
            flattened(all, start, end + 1),
        ).len(),
    ensures
        cursor_on(
            reflow_line(all, start, end, cursor_row, cursor_col, width, state),
            flattened(all, start, end + 1)[flattened(all, start, cursor_row).len() + cursor_col],
        ),
{
    let whole_line = flattened(all, start, end + 1);
    let cells = blanks_trimmed(whole_line);
    let offset = flattened(all, start, cursor_row).len() + cursor_col;
    let chunks = chunked(cells, cells.len() as int, width, Some(offset));
    lemma_can_wrap_flattened(all, start, end + 1, width);
    lemma_trimmed_is_prefix(whole_line);
    lemma_chunk_cursor(cells, cells.len() as int, width, offset);
    lemma_chunked(cells, cells.len() as int, width, Some(offset));
    assert(cells[offset] == whole_line[offset]);
    let (row, col) = chunks.cursor->0;
    let after = reflow_line(all, start, end, cursor_row, cursor_col, width, state);
    let rows = line_rows(chunks.rows, width, any_placeholder(all, start, end + 1));
    assert(after.out[state.out.len() + row] == rows[row]);
}

/// A cursor that was placed stays on its cell while further lines follow.
proof fn lemma_cursor_stays(
    all: Seq<RowModel>,
    start: int,
    cursor_row: int,
    cursor_col: int,
    width: int,
    state: ReflowModel,
    cell: CellModel,
)
    requires
        cursor_row < start <= all.len(),
        0 <= start,
        cursor_on(state, cell),
    ensures
        cursor_on(reflow_lines(all, start, cursor_row, cursor_col, width, state), cell),
    decreases all.len() - start,
{
    if start < all.len() {
        let end = line_end(all, start);
        lemma_line_end(all, start);
        let next = reflow_line(all, start, end, cursor_row, cursor_col, width, state);
        let (row, col) = state.cursor->0;
        assert(next.out[row] == state.out[row]);
        lemma_cursor_stays(all, end + 1, cursor_row, cursor_col, width, next, cell);
    }
}

/// The line that a row belongs to, among those from a row on.
pub open spec fn line_start(all: Seq<RowModel>, start: int, row: int) -> int
    decreases all.len() - start via line_start_decreases
{
    if start < 0 || start >= all.len() || row <= line_end(all, start) {
        start
    } else {
        line_start(all, line_end(all, start) + 1, row)
    }
}

#[via_fn]
proof fn line_start_decreases(all: Seq<RowModel>, start: int, row: int) {
    if !(start < 0 || start >= all.len()) {
        lemma_line_end(all, start);
    }
}

/// Whether the cursor stands on the text of its line, not behind it.
pub open spec fn on_text(all: Seq<RowModel>, start: int, row: int, col: int) -> bool {
    let first = line_start(all, start, row);
    flattened(all, first, row).len() + col < blanks_trimmed(
        flattened(all, first, line_end(all, first) + 1),
    ).len()
}

proof fn lemma_cursor_placed(
    all: Seq<RowModel>,
    start: int,
    cursor_row: int,
    cursor_col: int,
    width: int,
    state: ReflowModel,
)
    requires
        0 <= start <= cursor_row < all.len(),
        0 <= cursor_col < all[cursor_row].cells.len(),
        width > 0,
        rows_can_wrap(all, width),
        on_text(all, start, cursor_row, cursor_col),
    ensures
        cursor_on(
            reflow_lines(all, start, cursor_row, cursor_col, width, state),
            all[cursor_row].cells[cursor_col],
        ),
    decreases all.len() - start,
{
    let end = line_end(all, start);
    lemma_line_end(all, start);
    let next = reflow_line(all, start, end, cursor_row, cursor_col, width, state);
    if cursor_row <= end {
        lemma_line_cursor(all, start, end, cursor_row, cursor_col, width, state);
        lemma_flattened_at(all, start, cursor_row, end + 1, cursor_col);
        lemma_cursor_stays(
            all,
            end + 1,
            cursor_row,
            cursor_col,
            width,
            next,
            all[cursor_row].cells[cursor_col],
        );
    } else {
        lemma_cursor_placed(all, end + 1, cursor_row, cursor_col, width, next);
    }
}

/// The place of a cell among the cells of rows.
proof fn lemma_flattened_at(all: Seq<RowModel>, start: int, row: int, end: int, col: int)
    requires
        0 <= start <= row < end <= all.len(),
        0 <= col < all[row].cells.len(),
    ensures
        flattened(all, start, row).len() + col < flattened(all, start, end).len(),
        flattened(all, start, end)[flattened(all, start, row).len() + col] == all[row].cells[col],
    decreases end - row,
{
    if row + 1 < end {
        lemma_flattened_at(all, start, row, end - 1, col);
    }
}

/// A cursor that stands on the text of its line stands on the same character when the
/// lines are wrapped anew.
pub proof fn law_wrapping_anew_keeps_the_cursor_on_its_character(grid: GridModel, cols: u16)
    requires
        grid.wf(),
        grid.allocated(),
        cols > 0,
        rows_can_wrap(grid.scrollback + grid.rows, cols as int),
        grid.pos.col < grid.size.cols,
        on_text(
            grid.scrollback + grid.rows,
            0,
            grid.scrollback.len() + grid.pos.row,
            grid.pos.col as int,
        ),
    ensures
        ({
            let after = grid.with_columns(cols);
            &&& after.pos.row < after.rows.len()
            &&& after.pos.col < cols
            &&& after.rows[after.pos.row as int].cells[after.pos.col as int]
                == grid.rows[grid.pos.row as int].cells[grid.pos.col as int]
        }),
{
    let all = grid.scrollback + grid.rows;
    let row = grid.scrollback.len() + grid.pos.row;
    let start = ReflowModel { out: Seq::empty(), cursor: None };
    assert(all[row] == grid.rows[grid.pos.row as int]);
    lemma_cursor_placed(all, 0, row, grid.pos.col as int, cols as int, start);
    lemma_reflow_lines(
        all,
        0,
        row,
        grid.pos.col as int,
        cols as int,
        start,
    );
    let lines = grid.rewrapped(cols);
    let cursor = lines.cursor->0;
    lemma_blank_rows_dropped(lines.out, grid.rows.len() as int, cursor.0);
    let kept = grid.rewrapped_rows(cols);
    assert(kept[cursor.0] == lines.out[cursor.0]);
}

/// The cell under the cursor.
pub open spec fn under_cursor(grid: GridModel) -> CellModel {
    grid.rows[grid.pos.row as int].cells[grid.pos.col as int]
}

/// Fewer rows keep the row of the cursor.
proof fn lemma_rows_dropped_cursor(grid: GridModel, target: int)
    requires
        target > 0,
        grid.pos.row < grid.rows.len(),
    ensures
        ({
            let after = grid.rows_dropped(target);
            &&& after.pos.row < after.rows.len()
            &&& after.rows[after.pos.row as int] == grid.rows[grid.pos.row as int]
            &&& after.pos.col == grid.pos.col
        }),
    decreases grid.rows.len(),
{
    let last = grid.rows.len() - 1;
    if grid.rows.len() > target {
        if last > grid.pos.row && (grid.pos.row == 0 || grid.rows[last].is_blank()) {
            lemma_rows_dropped_cursor(GridModel { rows: grid.rows.drop_last(), ..grid }, target);
        } else {
            let next = GridModel {
                rows: grid.rows.remove(0),
                pos: Pos { row: max_int(grid.pos.row - 1, 0) as u16, ..grid.pos },
                saved_pos: Pos { row: max_int(grid.saved_pos.row - 1, 0) as u16, ..grid.saved_pos },
                ..grid.with_history(grid.rows[0])
            };
            lemma_rows_dropped_cursor(next, target);
        }
    }
}

/// More rows keep the row of the cursor.
proof fn lemma_rows_added_cursor(grid: GridModel, target: int)
    requires
        target <= u16::MAX,
        grid.pos.row < grid.rows.len(),
    ensures
        ({
            let after = grid.rows_added(target);
            &&& after.pos.row < after.rows.len()
            &&& after.rows[after.pos.row as int] == grid.rows[grid.pos.row as int]
            &&& after.pos.col == grid.pos.col
        }),
    decreases target - grid.rows.len(),
{
    if grid.rows.len() < target {
        if grid.scrollback.len() > 0 {
            let next = GridModel {
                rows: grid.rows.insert(0, grid.scrollback.last()),
                scrollback: grid.scrollback.drop_last(),
                pos: Pos { row: min_int(grid.pos.row + 1, u16::MAX as int) as u16, ..grid.pos },
                saved_pos: Pos {
                    row: min_int(grid.saved_pos.row + 1, u16::MAX as int) as u16,
                    ..grid.saved_pos
                },
                ..grid
            };
            lemma_rows_added_cursor(next, target);
        } else {
            lemma_rows_added_cursor(
                GridModel { rows: grid.rows.push(grid.blank_row()), ..grid },
                target,
            );
        }
    }
}

/// Whatever size a grid gets, a cursor that stands on the text of its line stays on its
/// character. Only a width of one column, which has no room for wide characters, is left
/// out where there are any.
pub proof fn law_resizing_keeps_the_cursor_on_its_character(grid: GridModel, size: Size)
    requires
        grid.wf(),
        grid.allocated(),
        rows_can_wrap(grid.scrollback + grid.rows, at_least_one(size.cols) as int),
        grid.pos.col < grid.size.cols,
        on_text(
            grid.scrollback + grid.rows,
            0,
            grid.scrollback.len() + grid.pos.row,
            grid.pos.col as int,
        ),
    ensures
        grid.reflowed(size).pos.row < grid.reflowed(size).rows.len(),
        grid.reflowed(size).pos.col < grid.reflowed(size).size.cols,
        under_cursor(grid.reflowed(size)) == under_cursor(grid),
{
    let to = Size { rows: at_least_one(size.rows), cols: at_least_one(size.cols) };
    let wrapped = if to.cols != grid.size.cols { grid.with_columns(to.cols) } else { grid };
    if to.cols != grid.size.cols {
        law_wrapping_anew_keeps_the_cursor_on_its_character(grid, to.cols);
    }
    lemma_rows_dropped_cursor(wrapped, to.rows as int);
    let dropped = wrapped.rows_dropped(to.rows as int);
    lemma_rows_added_cursor(dropped, to.rows as int);
    lemma_row_counts(wrapped, to.rows as int);
}

/// The number of rows that a grid has after rows were dropped and added.
proof fn lemma_row_counts(grid: GridModel, target: int)
    requires
        target > 0,
    ensures
        grid.rows_dropped(target).rows_added(target).rows.len() == target,
{
    lemma_dropped_count(grid, target);
    lemma_added_count(grid.rows_dropped(target), target);
}

proof fn lemma_dropped_count(grid: GridModel, target: int)
    requires
        target > 0,
    ensures
        grid.rows_dropped(target).rows.len() <= target,
    decreases grid.rows.len(),
{
    let last = grid.rows.len() - 1;
    if grid.rows.len() > target {
        if last > grid.pos.row && (grid.pos.row == 0 || grid.rows[last].is_blank()) {
            lemma_dropped_count(GridModel { rows: grid.rows.drop_last(), ..grid }, target);
        } else {
            let next = GridModel {
                rows: grid.rows.remove(0),
                pos: Pos { row: max_int(grid.pos.row - 1, 0) as u16, ..grid.pos },
                saved_pos: Pos { row: max_int(grid.saved_pos.row - 1, 0) as u16, ..grid.saved_pos },
                ..grid.with_history(grid.rows[0])
            };
            lemma_dropped_count(next, target);
        }
    }
}

proof fn lemma_added_count(grid: GridModel, target: int)
    requires
        grid.rows.len() <= target,
    ensures
        grid.rows_added(target).rows.len() == target,
    decreases target - grid.rows.len(),
{
    if grid.rows.len() < target {
        if grid.scrollback.len() > 0 {
            let next = GridModel {
                rows: grid.rows.insert(0, grid.scrollback.last()),
                scrollback: grid.scrollback.drop_last(),
                pos: Pos { row: min_int(grid.pos.row + 1, u16::MAX as int) as u16, ..grid.pos },
                saved_pos: Pos {
                    row: min_int(grid.saved_pos.row + 1, u16::MAX as int) as u16,
                    ..grid.saved_pos
                },
                ..grid
            };
            lemma_added_count(next, target);
        } else {
            lemma_added_count(
                GridModel { rows: grid.rows.push(grid.blank_row()), ..grid },
                target,
            );
        }
    }
}

} // verus!
