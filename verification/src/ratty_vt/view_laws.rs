//! What is seen of a screen: its rows, its history and its text.

use super::attrs::AttrsModel;
use super::cell::CellModel;
use super::grid_model::GridModel;
use super::row::{row_diff, row_text, spaces, span_end, text_read, RowModel, TextModel};
use super::screen_laws::{attrs_are_default, is_new_row, shows_nothing};
use super::screen_model::{text_of_rows, ScreenModel};
use crate::ratty_vt::grid::{Pos, Size};
use vstd::prelude::*;

verus! {

/// A view that is scrolled back by some rows, or as far as there are any, starts that many
/// rows before the screen, in the rows of the history and the screen taken together.
pub proof fn law_views_scroll_back(grid: GridModel, rows: int, i: int)
    requires
        grid.wf(),
        0 <= rows,
        0 <= i < grid.rows.len(),
    ensures
        ({
            let all = grid.scrollback + grid.rows;
            let seen = grid.scrolled_back(rows);
            let back = if rows < grid.scrollback.len() {
                rows
            } else {
                grid.scrollback.len() as int
            };
            &&& seen.visible().len() == grid.rows.len()
            &&& seen.visible()[i] == all[grid.scrollback.len() - back + i]
            &&& seen.scrollback_offset == back
            &&& seen.rows == grid.rows
            &&& seen.scrollback == grid.scrollback
            &&& seen.pos == grid.pos
        }),
{
}

/// What some cells show: their text, and a space for each without any.
pub open spec fn cells_text(cells: Seq<CellModel>, start: int, end: int) -> Seq<char>
    decreases end - start,
{
    if end <= start {
        Seq::empty()
    } else {
        let before = cells_text(cells, start, end - 1);
        let cell = cells[end - 1];
        if end - 1 > start && cells[end - 2].wide {
            before
        } else if cell.text.len() > 0 {
            before + cell.text
        } else {
            before.push(' ')
        }
    }
}

/// Whether each wide character of some cells has its second half behind it.
pub open spec fn wide_cells_whole(cells: Seq<CellModel>, start: int, end: int) -> bool {
    forall|c: int|
        start <= c < end && (#[trigger] cells[c]).wide ==> c + 1 < end && cells[c].text.len() > 0
            && !cells[c + 1].wide && cells[c + 1].text.len() == 0
}

proof fn lemma_text_read(out: Seq<char>, cells: Seq<CellModel>, start: int, limit: int, end: int)
    requires
        0 <= start <= end <= limit <= cells.len(),
        wide_cells_whole(cells, start, limit),
    ensures
        ({
            let read = text_read(out, cells, start, end);
            let waits = end > start && cells[end - 1].wide;
            &&& read.skip == waits
            &&& start <= read.col
            &&& waits ==> read.col == end + 1 && read.out == out + cells_text(cells, start, end)
            &&& !waits ==> read.col <= end && read.out + spaces(end - read.col) == out + cells_text(
                cells,
                start,
                end,
            )
            &&& end > start && cells[end - 1].text.len() > 0 && !waits ==> read.col == end
        }),
    decreases end - start,
{
    if end > start {
        lemma_text_read(out, cells, start, limit, end - 1);
        let before = text_read(out, cells, start, end - 1);
        let read = text_read(out, cells, start, end);
        let cell = cells[end - 1];
        let shown = out + cells_text(cells, start, end - 1);
        if before.skip {
            assert(cells[end - 2].wide);
            assert(read.out + spaces(end - read.col) =~= read.out);
        } else if cell.text.len() > 0 {
            assert(before.out + spaces(end - 1 - before.col) == shown);
            assert(read.out =~= shown + cell.text);
            assert(read.out =~= out + cells_text(cells, start, end));
            if !cell.wide {
                assert(read.out + spaces(end - read.col) =~= read.out);
            }
        } else {
            assert(!cell.wide);
            assert(spaces(end - before.col) =~= spaces(end - 1 - before.col).push(' '));
            assert(read.out + spaces(end - read.col) =~= (before.out + spaces(
                end - 1 - before.col,
            )).push(' '));
            assert(out + cells_text(cells, start, end) =~= shown.push(' '));
        }
    } else {
        assert(out + cells_text(cells, start, end) =~= out);
        assert(out + spaces(0) =~= out);
    }
}

proof fn lemma_text_read_ends(out: Seq<char>, cells: Seq<CellModel>, start: int, last: int, end: int)
    requires
        0 <= start <= last <= end <= cells.len(),
        !text_read(out, cells, start, last).skip,
        forall|c: int| last <= c < end ==> #[trigger] shows_nothing(cells[c]),
    ensures
        text_read(out, cells, start, end) == text_read(out, cells, start, last),
    decreases end - last,
{
    if end > last {
        lemma_text_read_ends(out, cells, start, last, end - 1);
        assert(shows_nothing(cells[end - 1]));
        assert(text_read(out, cells, start, end) == text_read(out, cells, start, end - 1));
    }
}

/// The text of a part of a row is that of its cells up to the last that shows something, with
/// a space for each cell before it that shows nothing.
pub proof fn law_rows_have_the_text_of_their_cells(
    row: RowModel,
    start: int,
    width: int,
    last: int,
)
    requires
        0 <= start <= last <= start + width,
        last <= row.cells.len(),
        wide_cells_whole(row.cells, start, last),
        last > start ==> row.cells[last - 1].text.len() > 0 || last > start + 1
            && row.cells[last - 2].wide,
        forall|c: int|
            last <= c < start + width && c < row.cells.len() ==> #[trigger] shows_nothing(
                row.cells[c],
            ),
    ensures
        row_text(Seq::empty(), row, start, width, false) == cells_text(row.cells, start, last),
{
    let none = Seq::<char>::empty();
    let len = row.cells.len() as int;
    let end = span_end(start, width, len);
    lemma_text_read(none, row.cells, start, last, last);
    let read = text_read(none, row.cells, start, last);
    if last > start {
        assert(!row.cells[last - 1].wide);
        if row.cells[last - 1].text.len() == 0 {
            lemma_text_read(none, row.cells, start, last, last - 1);
            assert(read.col == last);
        }
    }
    lemma_text_read_ends(none, row.cells, start, last, end);
    assert(read.out + spaces(last - read.col) =~= read.out);
    assert(none + cells_text(row.cells, start, last) =~= cells_text(row.cells, start, last));
}

/// Each row that is seen has its own text.
pub proof fn law_rows_are_read_one_by_one(screen: ScreenModel, start: int, width: int, i: int)
    requires
        0 <= i < screen.active().rows.len(),
    ensures
        screen.row_texts(start, width).len() == screen.active().rows.len(),
        screen.row_texts(start, width)[i] == row_text(
            Seq::empty(),
            screen.active().visible()[i],
            start,
            width,
            false,
        ),
{
}

proof fn lemma_read_appends(out: Seq<char>, cells: Seq<CellModel>, start: int, end: int)
    ensures
        ({
            let alone = text_read(Seq::empty(), cells, start, end);
            text_read(out, cells, start, end) == (TextModel { out: out + alone.out, ..alone })
        }),
    decreases end - start,
{
    if end > start {
        lemma_read_appends(out, cells, start, end - 1);
        let before = text_read(Seq::empty(), cells, start, end - 1);
        let cell = cells[end - 1];
        assert(out + before.out + spaces(end - 1 - before.col) + cell.text =~= out + (before.out
            + spaces(end - 1 - before.col) + cell.text));
    } else {
        assert(out + Seq::<char>::empty() =~= out);
    }
}

proof fn lemma_row_appends(out: Seq<char>, row: RowModel, start: int, width: int)
    ensures
        row_text(out, row, start, width, false) == out + row_text(
            Seq::empty(),
            row,
            start,
            width,
            false,
        ),
{
    lemma_read_appends(out, row.cells, start, span_end(start, width, row.cells.len() as int));
}

proof fn lemma_same_before(
    rows: Seq<RowModel>,
    start_row: int,
    start_col: int,
    end_row: int,
    end_col: int,
    other_row: int,
    other_col: int,
    cols: int,
    n: int,
)
    requires
        n <= end_row,
        n <= other_row,
    ensures
        text_of_rows(rows, start_row, start_col, end_row, end_col, cols, n) == text_of_rows(
            rows,
            start_row,
            start_col,
            other_row,
            other_col,
            cols,
            n,
        ),
    decreases n,
{
    if n > start_row && n > 0 {
        lemma_same_before(
            rows,
            start_row,
            start_col,
            end_row,
            end_col,
            other_row,
            other_col,
            cols,
            n - 1,
        );
    }
}

/// What stands between two rows: a line break, unless the first wraps into the second.
pub open spec fn row_break(row: RowModel) -> Seq<char> {
    if row.wrapped {
        Seq::empty()
    } else {
        seq!['\n']
    }
}

/// The text between two positions starts with that of the first row from the first column on,
/// goes on with that of each row after it, and ends with that of the last row before the last
/// column, with a line break between two rows unless the first wraps into the second.
pub proof fn law_text_between_positions_joins_rows(
    screen: ScreenModel,
    start_row: int,
    start_col: int,
    row: int,
    end_col: int,
)
    requires
        screen.wf(),
        0 <= start_row <= row,
        0 <= start_col,
        0 <= end_col,
        row + 1 < screen.active().rows.len(),
    ensures
        ({
            let rows = screen.active().visible();
            let cols = screen.active().size.cols as int;
            let next = screen.text_between(start_row, start_col, row + 1, end_col);
            let last = row_text(Seq::empty(), rows[row + 1], 0, end_col, false);
            &&& row == start_row ==> next == row_text(
                Seq::empty(),
                rows[row],
                start_col,
                cols - start_col,
                false,
            ) + row_break(rows[row]) + last
            &&& row > start_row ==> next == screen.text_between(start_row, start_col, row, cols)
                + row_break(rows[row]) + last
        }),
{
    let rows = screen.active().visible();
    let cols = screen.active().size.cols as int;
    let none = Seq::<char>::empty();
    let before = text_of_rows(rows, start_row, start_col, row + 1, end_col, cols, row);
    let upto = text_of_rows(rows, start_row, start_col, row + 1, end_col, cols, row + 1);
    lemma_row_appends(upto, rows[row + 1], 0, end_col);
    assert(screen.text_between(start_row, start_col, row + 1, end_col) == upto + row_text(
        none,
        rows[row + 1],
        0,
        end_col,
        false,
    ));
    if row == start_row {
        assert(before =~= none);
        assert(upto =~= row_text(none, rows[row], start_col, cols - start_col, false) + row_break(
            rows[row],
        ));
    } else {
        lemma_same_before(rows, start_row, start_col, row + 1, end_col, row, cols, cols, row);
        assert(screen.text_between(start_row, start_col, row, cols) == row_text(
            before,
            rows[row],
            0,
            cols,
            false,
        ));
        assert(upto =~= screen.text_between(start_row, start_col, row, cols) + row_break(rows[row]));
    }
}

/// The text between two positions of a row is that of its cells between them, and there is
/// none where the second does not come behind the first.
pub proof fn law_text_between_positions_of_a_row(
    screen: ScreenModel,
    row: int,
    start_col: int,
    end_col: int,
    before: int,
)
    requires
        0 <= row < screen.active().rows.len(),
        before < row,
    ensures
        start_col < end_col ==> screen.text_between(row, start_col, row, end_col) == row_text(
            Seq::empty(),
            screen.active().visible()[row],
            start_col,
            end_col - start_col,
            false,
        ),
        start_col >= end_col ==> screen.text_between(row, start_col, row, end_col) == Seq::<
            char,
        >::empty(),
        screen.text_between(row, start_col, before, end_col) == Seq::<char>::empty(),
{
}

pub open spec fn lesser(a: int, b: int) -> int {
    if a < b {
        a
    } else {
        b
    }
}

/// A screen of another size keeps the cells that are on it, from the top left on, and shows
/// nothing in the others; its cursors stay where they are, or at the last row and column.
pub proof fn law_sizes_cut_and_fill(screen: ScreenModel, size: Size, i: int, j: int)
    requires
        screen.wf(),
        size.rows > 0,
        size.cols > 0,
        0 <= i < size.rows,
        0 <= j < size.cols,
    ensures
        is_cut_or_filled(screen.grid, screen.resized(size).grid, size, i, j),
        is_cut_or_filled(screen.alternate_grid, screen.resized(size).alternate_grid, size, i, j),
        screen.resized(size).modes == screen.modes,
        screen.resized(size).attrs == screen.attrs,
{
}

/// Whether a grid is another one at some size, as seen in one of its cells.
pub open spec fn is_cut_or_filled(
    before: GridModel,
    after: GridModel,
    size: Size,
    i: int,
    j: int,
) -> bool {
    let cell = after.rows[i].cells[j];
    &&& after.size == size
    &&& after.rows.len() == size.rows
    &&& after.rows[i].cells.len() == size.cols
    &&& !after.rows[i].wrapped
    &&& i < before.rows.len() && j < before.rows[i].cells.len() ==> cell == before.rows[i].cells[j]
    &&& !(i < before.rows.len() && j < before.rows[i].cells.len()) ==> shows_nothing(cell)
        && attrs_are_default(cell.attrs)
    &&& after.pos.row == lesser(before.pos.row as int, size.rows - 1)
    &&& after.pos.col == lesser(before.pos.col as int, size.cols - 1)
    &&& after.saved_pos.row == lesser(before.saved_pos.row as int, size.rows - 1)
    &&& after.saved_pos.col == lesser(before.saved_pos.col as int, size.cols - 1)
    &&& after.scrollback == before.scrollback
    &&& after.origin_mode == before.origin_mode
    &&& before.scroll_bottom == before.size.rows - 1 ==> after.scroll_bottom == size.rows - 1
    &&& before.scroll_bottom < before.size.rows - 1 ==> after.scroll_bottom == lesser(
        before.scroll_bottom as int,
        size.rows - 1,
    )
    &&& before.scroll_top <= after.scroll_bottom ==> after.scroll_top == before.scroll_top
    &&& before.scroll_top > after.scroll_bottom ==> after.scroll_top == 0
}

/// When lines are wrapped anew, the alternate screen is cut and filled all the same, and its
/// scroll region is all of it.
pub proof fn law_alternate_screens_are_not_wrapped_anew(
    screen: ScreenModel,
    size: Size,
    i: int,
    j: int,
)
    requires
        screen.wf(),
        size.rows > 0,
        size.cols > 0,
        0 <= i < size.rows,
        0 <= j < size.cols,
    ensures
        ({
            let before = screen.alternate_grid;
            let after = screen.reflowed(size).alternate_grid;
            let cell = after.rows[i].cells[j];
            &&& after.size == size
            &&& after.rows.len() == size.rows
            &&& after.rows[i].cells.len() == size.cols
            &&& i < before.rows.len() && j < before.rows[i].cells.len() ==> cell
                == before.rows[i].cells[j]
            &&& !(i < before.rows.len() && j < before.rows[i].cells.len()) ==> shows_nothing(cell)
                && attrs_are_default(cell.attrs)
            &&& after.scroll_top == 0
            &&& after.scroll_bottom == size.rows - 1
            &&& after.pos.row == lesser(before.pos.row as int, size.rows - 1)
            &&& after.pos.col == lesser(before.pos.col as int, size.cols - 1)
        }),
{
}

/// A new screen shows nothing, has its cursor at the top left, scrolls as a whole, and has
/// nothing switched on.
pub proof fn law_new_screens_show_nothing(size: Size, scrollback_len: usize, i: int)
    requires
        size.rows > 0,
        size.cols > 0,
        0 <= i < size.rows,
    ensures
        ({
            let screen = ScreenModel::fresh(size, scrollback_len);
            let grid = screen.grid;
            &&& grid.size == size
            &&& grid.rows.len() == size.rows
            &&& is_new_row(grid.rows[i], size.cols as int)
            &&& grid.pos == (Pos { row: 0, col: 0 })
            &&& grid.scroll_top == 0
            &&& grid.scroll_bottom == size.rows - 1
            &&& grid.scrollback.len() == 0
            &&& grid.scrollback_len == scrollback_len
            &&& grid.scrollback_offset == 0
            &&& !grid.origin_mode
            &&& screen.alternate_grid.scrollback_len == 0
            &&& !screen.modes.alternate_screen
            &&& !screen.modes.application_cursor
            &&& !screen.modes.application_keypad
            &&& !screen.modes.hide_cursor
            &&& !screen.modes.bracketed_paste
            &&& attrs_are_default(screen.attrs)
        }),
{
}

/// The bytes that turn the rows of one screen into those of another are made row by row, each
/// from the start of its span on and with plain text before it.
pub proof fn law_rows_are_turned_one_by_one(
    screen: ScreenModel,
    prev: ScreenModel,
    start: int,
    width: int,
    i: int,
)
    requires
        0 <= i < screen.active().rows.len(),
        i < prev.active().rows.len(),
        i <= u16::MAX,
        0 <= start <= u16::MAX,
    ensures
        i < screen.row_diffs(prev, start, width).len(),
        exists|from: Pos, plain: AttrsModel|
            from.row == i && from.col == start && attrs_are_default(plain) && screen.row_diffs(
                prev,
                start,
                width,
            )[i] == (#[trigger] row_diff(
                Seq::empty(),
                screen.active().visible()[i],
                prev.active().visible()[i],
                start,
                width,
                i as u16,
                false,
                false,
                from,
                plain,
            )).out,
{
    let from = Pos { row: i as u16, col: start as u16 };
    let plain = AttrsModel::plain();
    assert(attrs_are_default(plain));
    assert(screen.row_diffs(prev, start, width)[i] == row_diff(
        Seq::empty(),
        screen.active().visible()[i],
        prev.active().visible()[i],
        start,
        width,
        i as u16,
        false,
        false,
        from,
        plain,
    ).out);
}

} // verus!
