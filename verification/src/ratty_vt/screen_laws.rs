//! What control functions do to the lines and the cursor of a screen.

use crate::ratty_vt::attrs::{AttrsModel, Blink, Color, Intensity};
use crate::ratty_vt::cell::CellModel;
use crate::ratty_vt::event::EventModel;
use crate::ratty_vt::grid::Pos;
use crate::ratty_vt::grid_model::{min_int, GridModel};
use crate::ratty_vt::row::RowModel;
use crate::ratty_vt::screen_model::ScreenModel;
use vstd::prelude::*;

verus! {

/// The grid that a screen shows: the alternate one, where that is in use.
pub open spec fn shown_grid(screen: ScreenModel) -> GridModel {
    if screen.modes.alternate_screen {
        screen.alternate_grid
    } else {
        screen.grid
    }
}

/// Whether all but the grid that is shown, and what is typed next joins, is the same.
pub open spec fn only_the_grid_changed(before: ScreenModel, after: ScreenModel) -> bool {
    &&& after.attrs == before.attrs
    &&& after.saved_attrs == before.saved_attrs
    &&& after.modes == before.modes
    &&& after.mouse_mode == before.mouse_mode
    &&& after.mouse_encoding == before.mouse_encoding
    &&& after.keyboard == before.keyboard
    &&& after.alternate_keyboard == before.alternate_keyboard
    &&& after.modify_other_keys == before.modify_other_keys
    &&& before.modes.alternate_screen ==> after.grid == before.grid
    &&& !before.modes.alternate_screen ==> after.alternate_grid == before.alternate_grid
}

/// Whether all but the rows of a grid is the same.
pub open spec fn only_rows_changed(before: GridModel, after: GridModel) -> bool {
    after == (GridModel { rows: after.rows, ..before }) && after.rows.len() == before.rows.len()
}

/// Whether all but the cursor of a grid is the same.
pub open spec fn only_the_cursor_moved(before: GridModel, after: GridModel) -> bool {
    after == (GridModel { pos: after.pos, ..before })
}

/// Whether attributes are those of text that nothing was asked for.
pub open spec fn attrs_are_default(attrs: AttrsModel) -> bool {
    &&& attrs.fgcolor == Color::Default
    &&& attrs.bgcolor == Color::Default
    &&& attrs.underline_color == Color::Default
    &&& attrs.intensity == Intensity::Normal
    &&& !attrs.italic
    &&& !attrs.underline
    &&& !attrs.inverse
    &&& attrs.blink == Blink::Steady
    &&& !attrs.hidden
    &&& !attrs.strikeout
}

/// Whether a cell shows nothing.
pub open spec fn shows_nothing(cell: CellModel) -> bool {
    cell.text.len() == 0 && !cell.wide && !cell.continuation
}

/// Whether a row is one on which nothing was drawn yet.
pub open spec fn is_new_row(row: RowModel, cols: int) -> bool {
    &&& row.cells.len() == cols
    &&& !row.wrapped
    &&& !row.placeholder
    &&& forall|j: int|
        0 <= j < cols ==> shows_nothing(#[trigger] row.cells[j]) && attrs_are_default(
            row.cells[j].attrs,
        )
}

/// What a parameter of a control sequence asks for; zero and nothing ask for the default.
pub open spec fn asked(params: Seq<Seq<u16>>, i: int, default: int) -> int {
    if i < params.len() && params[i].len() > 0 && params[i][0] > 0 {
        params[i][0] as int
    } else {
        default
    }
}

/// A screen after a control sequence.
pub open spec fn after_csi(screen: ScreenModel, params: Seq<Seq<u16>>, c: char) -> ScreenModel {
    screen.performed(EventModel::Csi(params, Seq::empty(), c), 0).screen
}

/// A screen after a control character.
pub open spec fn after_control(screen: ScreenModel, b: u8) -> ScreenModel {
    screen.performed(EventModel::Execute(b), 0).screen
}

/// A screen after an escape sequence.
pub open spec fn after_escape(screen: ScreenModel, b: u8) -> ScreenModel {
    screen.performed(EventModel::Esc(Seq::empty(), b), 0).screen
}

proof fn lemma_new_row(grid: GridModel)
    ensures
        is_new_row(grid.blank_row(), grid.size.cols as int),
{
}

// Lines.

/// Whether the lines of a region moved up, and new ones came in at its end.
pub open spec fn lines_moved_up(
    before: Seq<RowModel>,
    after: Seq<RowModel>,
    first: int,
    last: int,
    n: int,
    cols: int,
) -> bool {
    &&& after.len() == before.len()
    &&& forall|i: int|
        0 <= i < before.len() && (i < first || i > last) ==> #[trigger] after[i] == before[i]
    &&& forall|i: int| first <= i && i + n <= last ==> #[trigger] after[i] == before[i + n]
    &&& forall|i: int|
        first <= i <= last && i + n > last ==> is_new_row(#[trigger] after[i], cols)
}

/// Whether the lines of a region moved down, and new ones came in at its start. The last
/// line of the region goes on no further.
pub open spec fn lines_moved_down(
    before: Seq<RowModel>,
    after: Seq<RowModel>,
    first: int,
    last: int,
    n: int,
    cols: int,
) -> bool {
    &&& after.len() == before.len()
    &&& forall|i: int|
        0 <= i < before.len() && (i < first || i > last) ==> #[trigger] after[i] == before[i]
    &&& forall|i: int|
        first <= i <= last && i - n < first ==> is_new_row(#[trigger] after[i], cols)
    &&& forall|i: int|
        first <= i - n && i <= last ==> (#[trigger] after[i]).cells == before[i - n].cells
            && after[i].placeholder == before[i - n].placeholder && after[i].wrapped == (
        before[i - n].wrapped && (i < last || n == 0))
}

proof fn lemma_deleted(grid: GridModel, n: int)
    requires
        0 <= n,
        grid.scroll_bottom < grid.rows.len(),
        grid.pos.row <= grid.scroll_bottom,
    ensures
        ({
            let after = grid.lines_deleted_by(n);
            &&& only_rows_changed(grid, after)
            &&& lines_moved_up(
                grid.rows,
                after.rows,
                grid.pos.row as int,
                grid.scroll_bottom as int,
                n,
                grid.size.cols as int,
            )
        }),
    decreases n,
{
    if n > 0 {
        lemma_deleted(grid, n - 1);
        lemma_new_row(grid);
        let before = grid.lines_deleted_by(n - 1);
        let after = grid.lines_deleted_by(n);
        let first = grid.pos.row as int;
        let last = grid.scroll_bottom as int;
        let inserted = before.rows.insert(last + 1, before.blank_row());
        assert(after.rows == inserted.remove(first));
        assert forall|i: int| first <= i && i + n <= last implies #[trigger] after.rows[i]
            == grid.rows[i + n] by {
            assert(after.rows[i] == inserted[i + 1]);
            assert(inserted[i + 1] == before.rows[i + 1]);
            assert(before.rows[i + 1] == grid.rows[i + 1 + (n - 1)]);
        }
        assert forall|i: int| first <= i <= last && i + n > last implies is_new_row(
            #[trigger] after.rows[i],
            grid.size.cols as int,
        ) by {
            assert(after.rows[i] == inserted[i + 1]);
            if i < last {
                assert(inserted[i + 1] == before.rows[i + 1]);
            }
        }
        assert forall|i: int|
            0 <= i < grid.rows.len() && (i < first || i > last) implies #[trigger] after.rows[i]
            == grid.rows[i] by {
            if i < first {
                assert(after.rows[i] == inserted[i]);
                assert(inserted[i] == before.rows[i]);
            } else {
                assert(after.rows[i] == inserted[i + 1]);
                assert(inserted[i + 1] == before.rows[i]);
            }
        }
    }
}

proof fn lemma_deleted_below(grid: GridModel, n: int)
    requires
        0 <= n,
        grid.scroll_bottom < grid.pos.row < grid.rows.len(),
    ensures
        ({
            let after = grid.lines_deleted_by(n);
            let bottom = grid.scroll_bottom as int;
            let row = grid.pos.row as int;
            &&& only_rows_changed(grid, after)
            &&& forall|i: int|
                0 <= i < grid.rows.len() && (i <= bottom || i >= row) ==> #[trigger] after.rows[i]
                    == grid.rows[i]
            &&& forall|i: int|
                bottom < i - n && i < row ==> #[trigger] after.rows[i] == grid.rows[i - n]
            &&& forall|i: int|
                bottom < i < row && i - n <= bottom ==> is_new_row(
                    #[trigger] after.rows[i],
                    grid.size.cols as int,
                )
        }),
    decreases n,
{
    if n > 0 {
        lemma_deleted_below(grid, n - 1);
        lemma_new_row(grid);
        let before = grid.lines_deleted_by(n - 1);
        let after = grid.lines_deleted_by(n);
        let row = grid.pos.row as int;
        let bottom = grid.scroll_bottom as int;
        let inserted = before.rows.insert(bottom + 1, before.blank_row());
        assert(after.rows == inserted.remove(row));
        assert forall|i: int|
            0 <= i < grid.rows.len() && (i <= bottom || i >= row) implies #[trigger] after.rows[i]
            == grid.rows[i] by {
            if i <= bottom {
                assert(inserted[i] == before.rows[i]);
            } else {
                assert(inserted[i + 1] == before.rows[i]);
            }
        }
        assert forall|i: int| bottom < i - n && i < row implies #[trigger] after.rows[i]
            == grid.rows[i - n] by {
            assert(inserted[i] == before.rows[i - 1]);
            assert(before.rows[i - 1] == grid.rows[i - 1 - (n - 1)]);
        }
        assert forall|i: int| bottom < i < row && i - n <= bottom implies is_new_row(
            #[trigger] after.rows[i],
            grid.size.cols as int,
        ) by {
            if i == bottom + 1 {
                assert(inserted[i] == before.blank_row());
            } else {
                assert(inserted[i] == before.rows[i - 1]);
            }
        }
    }
}

/// Deleting lines (`CSI n M`) takes the line under the cursor and those below it away, as
/// far as the scroll region goes: the rest of the region moves up, and new lines come in
/// at its end. Below the region, where nothing moves up, new lines come in between the
/// region and the cursor. Nothing else changes.
#[verifier::spinoff_prover]
pub proof fn law_lines_are_deleted(screen: ScreenModel, params: Seq<Seq<u16>>)
    requires
        screen.wf(),
    ensures
        ({
            let n = asked(params, 0, 1);
            let after = after_csi(screen, params, 'M');
            let (old_grid, new_grid) = (shown_grid(screen), shown_grid(after));
            let row = old_grid.pos.row as int;
            let bottom = old_grid.scroll_bottom as int;
            &&& only_the_grid_changed(screen, after)
            &&& only_rows_changed(old_grid, new_grid)
            &&& row <= bottom ==> lines_moved_up(
                old_grid.rows,
                new_grid.rows,
                row,
                bottom,
                n,
                old_grid.size.cols as int,
            )
            &&& row > bottom ==> {
                let left = old_grid.rows.len() - row;
                let m = if n < left { n } else { left };
                &&& forall|i: int|
                    0 <= i < old_grid.rows.len() && (i <= bottom || i >= row)
                        ==> #[trigger] new_grid.rows[i] == old_grid.rows[i]
                &&& forall|i: int|
                    bottom < i - m && i < row ==> #[trigger] new_grid.rows[i] == old_grid.rows[i - m]
                &&& forall|i: int|
                    bottom < i < row && i - m <= bottom ==> is_new_row(
                        #[trigger] new_grid.rows[i],
                        old_grid.size.cols as int,
                    )
            }
        }),
{
    reveal(ScreenModel::performed);
    reveal(ScreenModel::csi_plain);
    let grid = shown_grid(screen);
    let n = asked(params, 0, 1);
    let row = grid.pos.row as int;
    let bottom = grid.scroll_bottom as int;
    let counted = min_int(n, grid.size.rows - row);
    if row <= bottom {
        lemma_deleted(grid, counted);
        let after = grid.lines_deleted_by(counted);
        assert forall|i: int| row <= i && i + n <= bottom implies #[trigger] after.rows[i]
            == grid.rows[i + n] by {
            assert(counted == n);
        }
    } else {
        lemma_deleted_below(grid, counted);
    }
}

#[verifier::spinoff_prover]
proof fn lemma_inserted(grid: GridModel, at: int, n: int)
    requires
        0 <= n,
        0 <= at <= grid.scroll_bottom,
        grid.scroll_bottom < grid.rows.len(),
    ensures
        ({
            let after = grid.lines_inserted_at(at, n);
            &&& only_rows_changed(grid, after)
            &&& lines_moved_down(
                grid.rows,
                after.rows,
                at,
                grid.scroll_bottom as int,
                n,
                grid.size.cols as int,
            )
        }),
    decreases n,
{
    if n > 0 {
        lemma_inserted(grid, at, n - 1);
        lemma_new_row(grid);
        let before = grid.lines_inserted_at(at, n - 1);
        let after = grid.lines_inserted_at(at, n);
        let last = grid.scroll_bottom as int;
        let removed = before.rows.remove(last);
        let moved = removed.insert(at, before.blank_row());
        assert(after.rows == moved.update(last, moved[last].with_wrap(false)));
        assert forall|i: int|
            0 <= i < grid.rows.len() && (i < at || i > last) implies #[trigger] after.rows[i]
            == grid.rows[i] by {
            assert(after.rows[i] == moved[i]);
            if i < at {
                assert(moved[i] == before.rows[i]);
            } else {
                assert(moved[i] == removed[i - 1]);
                assert(removed[i - 1] == before.rows[i]);
            }
        }
        assert forall|i: int| at <= i <= last && i - n < at implies is_new_row(
            #[trigger] after.rows[i],
            grid.size.cols as int,
        ) by {
            if i == at {
                assert(moved[i] == before.blank_row());
            } else {
                assert(moved[i] == before.rows[i - 1]);
            }
        }
        assert forall|i: int| at <= i - n && i <= last implies (#[trigger] after.rows[i]).cells
            == grid.rows[i - n].cells && after.rows[i].placeholder == grid.rows[i - n].placeholder
            && after.rows[i].wrapped == (grid.rows[i - n].wrapped && (i < last || n == 0)) by {
            assert(moved[i] == before.rows[i - 1]);
            assert(before.rows[i - 1].cells == grid.rows[i - 1 - (n - 1)].cells);
        }
    }
}

#[verifier::spinoff_prover]
proof fn lemma_inserted_below(grid: GridModel, at: int, n: int)
    requires
        0 <= n,
        grid.scroll_bottom < at < grid.rows.len(),
    ensures
        ({
            let after = grid.lines_inserted_at(at, n);
            let bottom = grid.scroll_bottom as int;
            &&& only_rows_changed(grid, after)
            &&& forall|i: int|
                0 <= i < grid.rows.len() && (i < bottom || i > at) ==> #[trigger] after.rows[i]
                    == grid.rows[i]
            &&& forall|i: int|
                bottom <= i && i + n <= at ==> (#[trigger] after.rows[i]).cells == grid.rows[i
                    + n].cells
            &&& forall|i: int|
                bottom <= i <= at && i + n > at ==> is_new_row(
                    #[trigger] after.rows[i],
                    grid.size.cols as int,
                )
        }),
    decreases n,
{
    if n > 0 {
        lemma_inserted_below(grid, at, n - 1);
        lemma_new_row(grid);
        let before = grid.lines_inserted_at(at, n - 1);
        let after = grid.lines_inserted_at(at, n);
        let bottom = grid.scroll_bottom as int;
        let removed = before.rows.remove(bottom);
        let moved = removed.insert(at, before.blank_row());
        assert(after.rows == moved.update(bottom, moved[bottom].with_wrap(false)));
        assert forall|i: int|
            0 <= i < grid.rows.len() && (i < bottom || i > at) implies #[trigger] after.rows[i]
            == grid.rows[i] by {
            if i < bottom {
                assert(moved[i] == before.rows[i]);
            } else {
                assert(moved[i] == removed[i - 1]);
                assert(removed[i - 1] == before.rows[i]);
            }
        }
        assert forall|i: int| bottom <= i && i + n <= at implies (#[trigger] after.rows[i]).cells
            == grid.rows[i + n].cells by {
            assert(moved[i] == removed[i]);
            assert(removed[i] == before.rows[i + 1]);
            assert(before.rows[i + 1].cells == grid.rows[i + 1 + (n - 1)].cells);
        }
        assert forall|i: int| bottom <= i <= at && i + n > at implies is_new_row(
            #[trigger] after.rows[i],
            grid.size.cols as int,
        ) by {
            if i == at {
                assert(moved[i] == before.blank_row());
            } else {
                assert(moved[i] == removed[i]);
                assert(removed[i] == before.rows[i + 1]);
            }
        }
    }
}

/// Inserting lines (`CSI n L`) puts new lines at the cursor: the line under the cursor and
/// those below it move down, as far as the scroll region goes, and the last ones of the
/// region are lost. Below the region, the lines from its last one to the cursor move up
/// instead. Nothing else changes.
#[verifier::spinoff_prover]
pub proof fn law_lines_are_inserted(screen: ScreenModel, params: Seq<Seq<u16>>)
    requires
        screen.wf(),
    ensures
        ({
            let n = asked(params, 0, 1);
            let after = after_csi(screen, params, 'L');
            let (old_grid, new_grid) = (shown_grid(screen), shown_grid(after));
            let row = old_grid.pos.row as int;
            let bottom = old_grid.scroll_bottom as int;
            &&& only_the_grid_changed(screen, after)
            &&& only_rows_changed(old_grid, new_grid)
            &&& row <= bottom ==> lines_moved_down(
                old_grid.rows,
                new_grid.rows,
                row,
                bottom,
                n,
                old_grid.size.cols as int,
            )
            &&& row > bottom ==> {
                &&& forall|i: int|
                    0 <= i < old_grid.rows.len() && (i < bottom || i > row)
                        ==> #[trigger] new_grid.rows[i] == old_grid.rows[i]
                &&& forall|i: int|
                    bottom <= i && i + n <= row ==> (#[trigger] new_grid.rows[i]).cells
                        == old_grid.rows[i + n].cells
                &&& forall|i: int|
                    bottom <= i <= row && i + n > row ==> is_new_row(
                        #[trigger] new_grid.rows[i],
                        old_grid.size.cols as int,
                    )
            }
        }),
{
    reveal(ScreenModel::performed);
    reveal(ScreenModel::csi_plain);
    let grid = shown_grid(screen);
    let n = asked(params, 0, 1);
    if grid.pos.row <= grid.scroll_bottom {
        lemma_inserted(grid, grid.pos.row as int, n);
    } else {
        lemma_inserted_below(grid, grid.pos.row as int, n);
    }
}

/// Whether the lines that left a grid at the top are the newest of its scrollback, which
/// keeps as many as it has room for. Where a scroll region is set, none are kept.
pub open spec fn lines_kept(before: GridModel, after: GridModel, n: int) -> bool {
    let full = before.scroll_top == 0 && before.scroll_bottom == before.size.rows - 1;
    let all = before.scrollback + before.rows.take(n);
    if full {
        let kept = if all.len() < before.scrollback_len {
            all.len() as int
        } else {
            before.scrollback_len as int
        };
        after.scrollback == all.subrange(all.len() - kept, all.len() as int)
    } else {
        after.scrollback == before.scrollback
    }
}

/// Whether a grid scrolled up, and nothing else of it changed but the scrollback and how
/// far the view is scrolled back.
pub open spec fn scrolled_up_by_lines(before: GridModel, after: GridModel, n: int) -> bool {
    let rows = before.size.rows - before.scroll_top;
    let m = if n < rows { n } else { rows };
    &&& after == (GridModel {
        rows: after.rows,
        scrollback: after.scrollback,
        scrollback_offset: after.scrollback_offset,
        ..before
    })
    &&& lines_moved_up(
        before.rows,
        after.rows,
        before.scroll_top as int,
        before.scroll_bottom as int,
        n,
        before.size.cols as int,
    )
    &&& lines_kept(before, after, m)
    // A view of the screen stays one, and a view of the scrollback stays on its lines.
    &&& before.scrollback_offset == 0 ==> after.scrollback_offset == 0
    &&& before.scroll_top > 0 || before.scroll_bottom < before.size.rows - 1 ==> after.scrollback_offset
        == before.scrollback_offset
    &&& before.scrollback_offset > 0 && before.scroll_top == 0 && before.scroll_bottom
        == before.size.rows - 1 ==> after.scrollback_offset == (if before.scrollback_offset + m
        < after.scrollback.len() {
        before.scrollback_offset + m
    } else {
        after.scrollback.len() as int
    })
}

#[verifier::spinoff_prover]
proof fn lemma_scrolled_up(grid: GridModel, n: int)
    requires
        grid.wf(),
        grid.allocated(),
        0 <= n <= grid.size.rows - grid.scroll_top,
    ensures
        scrolled_up_by_lines(grid, grid.scrolled_up_by(n), n),
    decreases n,
{
    let after = grid.scrolled_up_by(n);
    let first = grid.scroll_top as int;
    let last = grid.scroll_bottom as int;
    let all = grid.scrollback + grid.rows.take(n);
    if n == 0 {
        assert(all =~= grid.scrollback);
        assert(all.subrange(0, all.len() as int) =~= all);
    } else {
        lemma_scrolled_up(grid, n - 1);
        lemma_new_row(grid);
        let before = grid.scrolled_up_by(n - 1);
        let inserted = before.rows.insert(last + 1, before.blank_row());
        assert(after.rows == inserted.remove(first));
        assert forall|i: int| first <= i && i + n <= last implies #[trigger] after.rows[i]
            == grid.rows[i + n] by {
            assert(after.rows[i] == inserted[i + 1]);
            assert(inserted[i + 1] == before.rows[i + 1]);
            assert(before.rows[i + 1] == grid.rows[i + 1 + (n - 1)]);
        }
        assert forall|i: int| first <= i <= last && i + n > last implies is_new_row(
            #[trigger] after.rows[i],
            grid.size.cols as int,
        ) by {
            assert(after.rows[i] == inserted[i + 1]);
            if i < last {
                assert(inserted[i + 1] == before.rows[i + 1]);
            }
        }
        assert forall|i: int|
            0 <= i < grid.rows.len() && (i < first || i > last) implies #[trigger] after.rows[i]
            == grid.rows[i] by {
            if i < first {
                assert(after.rows[i] == inserted[i]);
                assert(inserted[i] == before.rows[i]);
            } else {
                assert(after.rows[i] == inserted[i + 1]);
                assert(inserted[i + 1] == before.rows[i]);
            }
        }
        if first == 0 && last == grid.size.rows - 1 {
            let earlier = grid.scrollback + grid.rows.take(n - 1);
            assert(before.rows[0] == grid.rows[n - 1]) by {
                assert(before.rows[0] == grid.rows[0 + (n - 1)]);
            }
            assert(all =~= earlier.push(grid.rows[n - 1]));
            assert(grid.scrollback_len > 0 ==> after.scrollback =~= all.subrange(
                all.len() - after.scrollback.len(),
                all.len() as int,
            ));
            if grid.scrollback_len == 0 {
                assert(after.scrollback =~= all.subrange(all.len() as int, all.len() as int));
            }
        }
    }
}

/// Scrolling up (`CSI n S`) moves the lines of the scroll region up and brings new ones in
/// at its end. Without a scroll region the lines that leave the screen are kept in the
/// scrollback. Nothing else changes.
#[verifier::spinoff_prover]
pub proof fn law_scrolling_up_keeps_lines(screen: ScreenModel, params: Seq<Seq<u16>>)
    requires
        screen.wf(),
    ensures
        ({
            let after = after_csi(screen, params, 'S');
            &&& only_the_grid_changed(screen, after)
            &&& scrolled_up_by_lines(shown_grid(screen), shown_grid(after), asked(params, 0, 1))
        }),
{
    reveal(ScreenModel::performed);
    reveal(ScreenModel::csi_plain);
    let grid = shown_grid(screen);
    let n = asked(params, 0, 1);
    let counted = min_int(n, grid.size.rows - grid.scroll_top);
    lemma_scrolled_up(grid, counted);
    let after = grid.scrolled_up_by(counted);
    assert forall|i: int|
        grid.scroll_top <= i && i + n <= grid.scroll_bottom implies #[trigger] after.rows[i]
        == grid.rows[i + n] by {
        assert(counted == n);
    }
}

/// Scrolling down (`CSI n T`) moves the lines of the scroll region down and brings new ones
/// in at its start. Nothing else changes.
#[verifier::spinoff_prover]
pub proof fn law_scrolling_down_moves_lines(screen: ScreenModel, params: Seq<Seq<u16>>)
    requires
        screen.wf(),
    ensures
        ({
            let after = after_csi(screen, params, 'T');
            let (old_grid, new_grid) = (shown_grid(screen), shown_grid(after));
            &&& only_the_grid_changed(screen, after)
            &&& only_rows_changed(old_grid, new_grid)
            &&& lines_moved_down(
                old_grid.rows,
                new_grid.rows,
                old_grid.scroll_top as int,
                old_grid.scroll_bottom as int,
                asked(params, 0, 1),
                old_grid.size.cols as int,
            )
        }),
{
    reveal(ScreenModel::performed);
    reveal(ScreenModel::csi_plain);
    let grid = shown_grid(screen);
    lemma_inserted(grid, grid.scroll_top as int, asked(params, 0, 1));
}

/// A line feed puts the cursor one row down. At the end of the scroll region the region
/// scrolls up by a line instead, and at the end of the screen the cursor stays.
#[verifier::spinoff_prover]
pub proof fn law_line_feeds_go_down(screen: ScreenModel, b: u8)
    requires
        screen.wf(),
        10 <= b <= 12,
    ensures
        ({
            let after = after_control(screen, b);
            let (old_grid, new_grid) = (shown_grid(screen), shown_grid(after));
            let row = old_grid.pos.row;
            &&& only_the_grid_changed(screen, after)
            &&& if row == old_grid.scroll_bottom {
                scrolled_up_by_lines(old_grid, new_grid, 1)
            } else if row + 1 < old_grid.size.rows {
                new_grid == (GridModel {
                    pos: Pos { row: (row + 1) as u16, col: old_grid.pos.col },
                    ..old_grid
                })
            } else {
                new_grid == old_grid
            }
        }),
{
    reveal(ScreenModel::performed);
    let grid = shown_grid(screen);
    let after = shown_grid(after_control(screen, b));
    if grid.pos.row == grid.scroll_bottom {
        lemma_scrolled_up(grid, 1);
        assert(after == grid.scrolled_up_by(1));
    } else if grid.in_scroll_region() {
        let moved = grid.row_down(1);
        assert(moved.scrolled_up(0) == moved);
    }
}

/// A reverse line feed (`ESC M`) puts the cursor one row up. At the start of the scroll
/// region, or of the screen, the region scrolls down by a line instead.
#[verifier::spinoff_prover]
pub proof fn law_reverse_line_feeds_go_up(screen: ScreenModel)
    requires
        screen.wf(),
    ensures
        ({
            let after = after_escape(screen, 77);
            let (old_grid, new_grid) = (shown_grid(screen), shown_grid(after));
            let row = old_grid.pos.row;
            &&& only_the_grid_changed(screen, after)
            &&& if row == old_grid.scroll_top || row == 0 {
                &&& only_rows_changed(old_grid, new_grid)
                &&& lines_moved_down(
                    old_grid.rows,
                    new_grid.rows,
                    old_grid.scroll_top as int,
                    old_grid.scroll_bottom as int,
                    1,
                    old_grid.size.cols as int,
                )
            } else {
                new_grid == (GridModel {
                    pos: Pos { row: (row - 1) as u16, col: old_grid.pos.col },
                    ..old_grid
                })
            }
        }),
{
    reveal(ScreenModel::performed);
    let grid = shown_grid(screen);
    let after = shown_grid(after_escape(screen, 77));
    if grid.pos.row == grid.scroll_top || grid.pos.row == 0 {
        lemma_inserted(grid, grid.scroll_top as int, 1);
        assert(after == grid.lines_inserted_at(grid.scroll_top as int, 1));
    } else {
        let moved = grid.row_up(1);
        assert(moved.lines_inserted_at(grid.scroll_top as int, 0) == moved);
    }
}

// The cursor.

/// Whether the cursor moved within its screen to a place, and nothing else changed.
pub open spec fn cursor_went(before: ScreenModel, after: ScreenModel, row: int, col: int) -> bool {
    &&& only_the_grid_changed(before, after)
    &&& only_the_cursor_moved(shown_grid(before), shown_grid(after))
    &&& shown_grid(after).pos.row == row
    &&& shown_grid(after).pos.col == col
}

/// How far up the cursor can go by rows: to the start of the scroll region from within it,
/// else to the start of the screen.
pub open spec fn highest(grid: GridModel, n: int) -> int {
    let row = grid.pos.row as int;
    let top = if grid.scroll_top <= row <= grid.scroll_bottom {
        grid.scroll_top as int
    } else {
        0
    };
    if row - n < top {
        top
    } else {
        row - n
    }
}

/// How far down the cursor can go by rows.
pub open spec fn lowest(grid: GridModel, n: int) -> int {
    let row = grid.pos.row as int;
    let bottom = if grid.scroll_top <= row <= grid.scroll_bottom {
        grid.scroll_bottom as int
    } else {
        grid.size.rows - 1
    };
    if row + n > bottom {
        bottom
    } else {
        row + n
    }
}

/// The nearest number from zero to one below a limit.
pub open spec fn within(n: int, limit: int) -> int {
    if n < 0 {
        0
    } else if n >= limit {
        limit - 1
    } else {
        n
    }
}

/// A control sequence that changes the grid that is shown.
proof fn lemma_grid_changed(screen: ScreenModel, params: Seq<Seq<u16>>, c: char, grid: GridModel)
    requires
        c != 'm',
        c != 't',
        screen.parted().csi_plain(params, c) == Some(screen.parted().with_active(grid)),
    ensures
        only_the_grid_changed(screen, after_csi(screen, params, c)),
        shown_grid(after_csi(screen, params, c)) == grid,
{
    reveal(ScreenModel::performed);
}

#[verifier::spinoff_prover]
proof fn lemma_up_and_down(screen: ScreenModel, params: Seq<Seq<u16>>)
    requires
        screen.wf(),
    ensures
        ({
            let n = asked(params, 0, 1);
            let grid = shown_grid(screen);
            let col = grid.pos.col as int;
            &&& cursor_went(screen, after_csi(screen, params, 'A'), highest(grid, n), col)
            &&& cursor_went(screen, after_csi(screen, params, 'B'), lowest(grid, n), col)
            &&& cursor_went(screen, after_csi(screen, params, 'E'), lowest(grid, n), 0)
            &&& cursor_went(screen, after_csi(screen, params, 'F'), highest(grid, n), 0)
        }),
{
    let grid = shown_grid(screen);
    let n = asked(params, 0, 1);
    assert(screen.parted().csi_plain(params, 'A') == Some(
        screen.parted().with_active(grid.row_dec_clamp(n)),
    )) by {
        reveal(ScreenModel::csi_plain);
    }
    lemma_grid_changed(screen, params, 'A', grid.row_dec_clamp(n));
    assert(screen.parted().csi_plain(params, 'B') == Some(
        screen.parted().with_active(grid.row_inc_clamp(n)),
    )) by {
        reveal(ScreenModel::csi_plain);
    }
    lemma_grid_changed(screen, params, 'B', grid.row_inc_clamp(n));
    assert(screen.parted().csi_plain(params, 'E') == Some(
        screen.parted().with_active(grid.col_set(0).row_inc_clamp(n)),
    )) by {
        reveal(ScreenModel::csi_plain);
    }
    lemma_grid_changed(screen, params, 'E', grid.col_set(0).row_inc_clamp(n));
    assert(screen.parted().csi_plain(params, 'F') == Some(
        screen.parted().with_active(grid.col_set(0).row_dec_clamp(n)),
    )) by {
        reveal(ScreenModel::csi_plain);
    }
    lemma_grid_changed(screen, params, 'F', grid.col_set(0).row_dec_clamp(n));
}

#[verifier::spinoff_prover]
proof fn lemma_along_the_row(screen: ScreenModel, params: Seq<Seq<u16>>)
    requires
        screen.wf(),
    ensures
        ({
            let n = asked(params, 0, 1);
            let grid = shown_grid(screen);
            let row = grid.pos.row as int;
            let col = grid.pos.col as int;
            let cols = grid.size.cols as int;
            &&& cursor_went(screen, after_csi(screen, params, 'C'), row, within(col + n, cols))
            &&& cursor_went(screen, after_csi(screen, params, 'D'), row, if col < n { 0 } else { col
                - n })
            &&& cursor_went(screen, after_csi(screen, params, 'G'), row, within(n - 1, cols))
            &&& cursor_went(
                screen,
                after_csi(screen, params, 'd'),
                within(n - 1, grid.size.rows as int),
                col,
            )
        }),
{
    let grid = shown_grid(screen);
    let n = asked(params, 0, 1);
    assert(screen.parted().csi_plain(params, 'C') == Some(
        screen.parted().with_active(grid.col_inc_clamp(n)),
    )) by {
        reveal(ScreenModel::csi_plain);
    }
    lemma_grid_changed(screen, params, 'C', grid.col_inc_clamp(n));
    assert(screen.parted().csi_plain(params, 'D') == Some(
        screen.parted().with_active(grid.col_dec(n)),
    )) by {
        reveal(ScreenModel::csi_plain);
    }
    lemma_grid_changed(screen, params, 'D', grid.col_dec(n));
    assert(screen.parted().csi_plain(params, 'G') == Some(
        screen.parted().with_active(grid.col_set(n - 1)),
    )) by {
        reveal(ScreenModel::csi_plain);
    }
    lemma_grid_changed(screen, params, 'G', grid.col_set(n - 1));
    assert(screen.parted().csi_plain(params, 'd') == Some(
        screen.parted().with_active(grid.row_set(n - 1)),
    )) by {
        reveal(ScreenModel::csi_plain);
    }
    lemma_grid_changed(screen, params, 'd', grid.row_set(n - 1));
}

/// The cursor moves up, down, right, left, to the start of a line above or below, to a
/// column and to a row by as much as is asked for, and stays on the screen and, by rows, in
/// the scroll region that it is in.
pub proof fn law_cursor_moves(screen: ScreenModel, params: Seq<Seq<u16>>)
    requires
        screen.wf(),
    ensures
        ({
            let n = asked(params, 0, 1);
            let grid = shown_grid(screen);
            let row = grid.pos.row as int;
            let col = grid.pos.col as int;
            let cols = grid.size.cols as int;
            &&& cursor_went(screen, after_csi(screen, params, 'A'), highest(grid, n), col)
            &&& cursor_went(screen, after_csi(screen, params, 'B'), lowest(grid, n), col)
            &&& cursor_went(screen, after_csi(screen, params, 'C'), row, within(col + n, cols))
            &&& cursor_went(screen, after_csi(screen, params, 'D'), row, if col < n { 0 } else { col
                - n })
            &&& cursor_went(screen, after_csi(screen, params, 'E'), lowest(grid, n), 0)
            &&& cursor_went(screen, after_csi(screen, params, 'F'), highest(grid, n), 0)
            &&& cursor_went(screen, after_csi(screen, params, 'G'), row, within(n - 1, cols))
            &&& cursor_went(
                screen,
                after_csi(screen, params, 'd'),
                within(n - 1, grid.size.rows as int),
                col,
            )
        }),
{
    lemma_up_and_down(screen, params);
    lemma_along_the_row(screen, params);
}

/// The cursor goes to a position (`CSI row;col H`, also with `f`) that counts from one. In
/// origin mode rows count from the start of the scroll region, and the cursor stays in it.
#[verifier::spinoff_prover]
pub proof fn law_cursor_goes_to_positions(screen: ScreenModel, params: Seq<Seq<u16>>, c: char)
    requires
        screen.wf(),
        c == 'H' || c == 'f',
    ensures
        ({
            let grid = shown_grid(screen);
            let row = asked(params, 0, 1) - 1;
            let col = asked(params, 1, 1) - 1;
            let target = if grid.origin_mode {
                if grid.scroll_top + row > grid.scroll_bottom {
                    grid.scroll_bottom as int
                } else {
                    grid.scroll_top + row
                }
            } else {
                within(row, grid.size.rows as int)
            };
            cursor_went(
                screen,
                after_csi(screen, params, c),
                target,
                within(col, grid.size.cols as int),
            )
        }),
{
    reveal(ScreenModel::csi_plain);
    let grid = shown_grid(screen);
    let to = Pos { row: (asked(params, 0, 1) - 1) as u16, col: (asked(params, 1, 1) - 1) as u16 };
    lemma_grid_changed(screen, params, c, grid.moved_to(to));
}

/// A backspace goes one column left, a tab to the next column that eight divides, a
/// carriage return to the first column; none of them leaves the row.
#[verifier::spinoff_prover]
pub proof fn law_control_characters_move_the_cursor(screen: ScreenModel)
    requires
        screen.wf(),
    ensures
        ({
            let grid = shown_grid(screen);
            let row = grid.pos.row as int;
            let col = grid.pos.col as int;
            let tab = shown_grid(after_control(screen, 9)).pos.col as int;
            &&& cursor_went(screen, after_control(screen, 8), row, if col == 0 { 0 } else { col - 1 })
            &&& cursor_went(screen, after_control(screen, 9), row, tab)
            &&& tab < grid.size.cols
            &&& tab == grid.size.cols - 1 || (tab % 8 == 0 && col < tab <= col + 8)
            &&& col + 8 < grid.size.cols ==> tab % 8 == 0
            &&& cursor_went(screen, after_control(screen, 13), row, 0)
        }),
{
    let grid = shown_grid(screen);
    assert(after_control(screen, 8) == screen.parted().with_active(grid.col_dec(1))) by {
        reveal(ScreenModel::performed);
    }
    assert(after_control(screen, 9) == screen.parted().with_active(grid.col_tab())) by {
        reveal(ScreenModel::performed);
    }
    assert(after_control(screen, 13) == screen.parted().with_active(grid.col_set(0))) by {
        reveal(ScreenModel::performed);
    }
}

/// A scroll region (`CSI top;bottom r`) counts from one and holds two rows or more; else
/// the region is the whole screen. The cursor goes to the start of the region.
#[verifier::spinoff_prover]
pub proof fn law_scroll_regions_are_set(screen: ScreenModel, params: Seq<Seq<u16>>)
    requires
        screen.wf(),
    ensures
        ({
            let after = after_csi(screen, params, 'r');
            let (old_grid, new_grid) = (shown_grid(screen), shown_grid(after));
            let rows = old_grid.size.rows as int;
            let top = asked(params, 0, 1) - 1;
            let asked_bottom = asked(params, 1, rows) - 1;
            let bottom = if asked_bottom < rows { asked_bottom } else { rows - 1 };
            &&& only_the_grid_changed(screen, after)
            &&& new_grid == (GridModel {
                scroll_top: new_grid.scroll_top,
                scroll_bottom: new_grid.scroll_bottom,
                pos: new_grid.pos,
                ..old_grid
            })
            &&& top < bottom ==> new_grid.scroll_top == top && new_grid.scroll_bottom == bottom
            &&& top >= bottom ==> new_grid.scroll_top == 0 && new_grid.scroll_bottom == rows - 1
            &&& new_grid.pos == (Pos { row: new_grid.scroll_top, col: 0 })
        }),
{
    reveal(ScreenModel::csi_plain);
    let grid = shown_grid(screen);
    let top = (asked(params, 0, 1) - 1) as u16;
    let bottom = (asked(params, 1, grid.size.rows as int) - 1) as u16;
    lemma_grid_changed(screen, params, 'r', grid.with_scroll_region(top, bottom));
}

/// A cursor that is saved (`ESC 7`, `CSI s`) comes back (`ESC 8`, `CSI u`) to its place and,
/// where it was saved with `ESC 7`, with its attributes.
#[verifier::spinoff_prover]
pub proof fn law_the_cursor_is_saved(screen: ScreenModel, params: Seq<Seq<u16>>)
    requires
        screen.wf(),
    ensures
        ({
            let grid = shown_grid(screen);
            let saved = after_escape(screen, 55);
            let back = after_escape(screen, 56);
            let csi_saved = after_csi(screen, params, 's');
            let csi_back = after_csi(screen, params, 'u');
            &&& only_the_grid_changed(screen, ScreenModel { saved_attrs: screen.saved_attrs, ..saved })
            &&& saved.saved_attrs == screen.attrs
            &&& shown_grid(saved) == (GridModel {
                saved_pos: grid.pos,
                saved_origin_mode: grid.origin_mode,
                ..grid
            })
            &&& only_the_grid_changed(screen, ScreenModel { attrs: screen.attrs, ..back })
            &&& back.attrs == screen.saved_attrs
            &&& shown_grid(back) == (GridModel {
                pos: grid.saved_pos,
                origin_mode: grid.saved_origin_mode,
                ..grid
            })
            &&& only_the_grid_changed(screen, csi_saved)
            &&& shown_grid(csi_saved) == shown_grid(saved)
            &&& only_the_grid_changed(screen, csi_back)
            &&& shown_grid(csi_back) == shown_grid(back)
        }),
{
    let grid = shown_grid(screen);
    assert(after_escape(screen, 55) == screen.parted().cursor_saved()) by {
        reveal(ScreenModel::performed);
    }
    assert(after_escape(screen, 56) == screen.parted().cursor_restored()) by {
        reveal(ScreenModel::performed);
    }
    assert(screen.parted().csi_plain(params, 's') == Some(
        screen.parted().with_active(grid.cursor_saved()),
    )) by {
        reveal(ScreenModel::csi_plain);
    }
    assert(screen.parted().csi_plain(params, 'u') == Some(
        screen.parted().with_active(grid.cursor_restored()),
    )) by {
        reveal(ScreenModel::csi_plain);
    }
    lemma_grid_changed(screen, params, 's', grid.cursor_saved());
    lemma_grid_changed(screen, params, 'u', grid.cursor_restored());
}

} // verus!
