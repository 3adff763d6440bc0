//! The difference between two screens turns the one into the other.

use crate::ratty_vt::attrs::{attrs_diff, AttrsModel};
use crate::ratty_vt::cell::CellModel;
use crate::ratty_vt::codes::{
    canvas, codes_bytes, drawn_by, draws, framed, lemma_cursor_code, lemma_literal, lemma_recolor,
    lemma_single, lemma_start, replayed, CanvasModel, CodeModel,
};
use crate::ratty_vt::grid::{Pos, Size};
use crate::ratty_vt::grid_model::{
    end_cell, filled_row_above, goto, min_int, redrawn, rows_diff, GridModel, WrittenModel,
};
use crate::ratty_vt::redraw::{
    as_row, can_fuse, columns, filled_end, fused, inked, is_full, joinable, joins_at, landed, landing,
    law_written_screens_draw_themselves, lemma_blank_end, lemma_control, lemma_end_cell,
    lemma_erase_char, lemma_erase_to_end, lemma_filled_row_above, lemma_fuse, lemma_glyph_follows,
    lemma_ink, lemma_line_feeds, lemma_move_from_to, lemma_move_to, lemma_narrow_in_last_column,
    lemma_shown_rows, partial, printable, redrawable, retypes, second_half, shows_the_same,
    typable_row, was_wide, wide_after, wiped, would_join,
};
use crate::ratty_vt::row::{
    last_glyph_col, row_diff, spaces, step_over_wrap, PenModel, RowModel,
};
use crate::ratty_vt::screen_model::{owner_col, ScreenModel};
use crate::ratty_vt::term;
use crate::ratty_vt::unicode::stands_apart;
use crate::ratty_vt::wide::{whole, whole_at};
use vstd::prelude::*;
use vstd::utf8::{encode_scalar, encode_utf8};

verus! {

// Drawing over what is there.

/// A row on which the first characters of a cell were typed over what was there.
spec fn typed_row(before: Seq<CellModel>, cell: CellModel, n: int, col: int) -> Seq<CellModel> {
    let cols = before.len() as int;
    let last = col + 1 == cols;
    let now = partial(cell, n, last);
    let widened = was_wide(cell.text, n + 1, last);
    Seq::new(
        before.len(),
        |j: int|
            if j == col {
                now
            } else if j == col + 1 && now.wide {
                second_half()
            } else if j == col + 1 && widened {
                CellModel::cleared(cell.attrs)
            } else if j == col + 1 && before[col].wide {
                CellModel::glyph(' ', false, cell.attrs)
            } else if j == col + 2 && widened && before[col + 1].wide {
                CellModel::cleared(cell.attrs)
            } else {
                before[j]
            },
    )
}

/// Whether typing cuts off the wide character that ends a row, which ends its wrapping.
spec fn cuts_end(before: Seq<CellModel>, cell: CellModel, n: int, col: int) -> bool {
    let cols = before.len() as int;
    col + 3 == cols && before[col + 1].wide && was_wide(cell.text, n + 1, false)
}

/// The canvas with the first characters of a cell typed.
spec fn typed_over(c: CanvasModel, at: Pos, cell: CellModel, n: int) -> CanvasModel {
    let row = at.row as int;
    let cells = c.cells[row];
    let now = partial(cell, n, at.col + 1 == cells.len());
    let wraps = landed(c, at);
    CanvasModel {
        cells: c.cells.update(row, typed_row(cells, cell, n, at.col as int)),
        wraps: wraps.update(row, wraps[row] && !cuts_end(cells, cell, n, at.col as int)),
        pos: Pos { row: at.row, col: (at.col + (if now.wide { 2int } else { 1int })) as u16 },
        joins: true,
        ..c
    }
}

/// Where a cell can be typed over what is there.
spec fn typeable_over(c: CanvasModel, at: Pos, cell: CellModel, size: Size) -> bool {
    let col = at.col as int;
    let cells = c.cells[at.row as int];
    &&& retypes(cell, col, size.cols as int)
    &&& !cell.continuation
    &&& cell.text.len() > 0
    &&& c.attrs == cell.attrs
    &&& c.pos.row < size.rows
    &&& c.cells.len() == size.rows
    &&& c.wraps.len() == size.rows
    &&& at == landing(c, size, cell.text[0])
    &&& at.row < size.rows
    &&& at.col < size.cols
    &&& !would_join(c, cell.text[0])
    &&& cells.len() == size.cols
    &&& whole(cells)
    &&& !cells[col].continuation
}

proof fn lemma_type_first_over(
    out: Seq<u8>,
    size: Size,
    origin: ScreenModel,
    c: CanvasModel,
    at: Pos,
    cell: CellModel,
)
    requires
        draws(out, size, origin, c),
        typeable_over(c, at, cell, size),
    ensures
        draws(out + encode_utf8(cell.text.take(1)), size, origin, typed_over(c, at, cell, 1)),
{
    let ch = cell.text[0];
    let col = at.col as int;
    let cells = c.cells[at.row as int];
    let last = col + 1 == size.cols;
    assert(printable(ch));
    lemma_ink(out, size, origin, c, ch);
    assert(cell.text.take(1) =~= seq![ch]);
    lemma_single(ch);
    lemma_glyph_follows(cells, col);
    if col + 1 < size.cols {
        lemma_glyph_follows(cells, col + 1);
    }
    let d = inked(c, at, ch);
    let after = d.cells[at.row as int];
    let row = typed_row(cells, cell, 1, col);
    assert(wide_after(cell.text, 1, last) == (columns(ch) > 1));
    if columns(ch) > 1 {
        assert(wide_after(cell.text, 1, last));
        assert(was_wide(cell.text, 2, last));
    } else {
        assert(!was_wide(cell.text, 2, last)) by {
            if was_wide(cell.text, 2, last) {
                let k = choose|k: int| 1 <= k < 2 && #[trigger] wide_after(cell.text, k, last);
                assert(k == 1);
            }
        }
    }
    assert(after[col].text =~= cell.text.take(1));
    assert(after =~= row);
    assert(d.cells =~= typed_over(c, at, cell, 1).cells);
    assert(d.wraps =~= typed_over(c, at, cell, 1).wraps);
}

proof fn lemma_type_next_over(
    out: Seq<u8>,
    size: Size,
    origin: ScreenModel,
    c: CanvasModel,
    at: Pos,
    cell: CellModel,
    n: int,
)
    requires
        draws(out, size, origin, typed_over(c, at, cell, n)),
        typeable_over(c, at, cell, size),
        1 <= n < cell.text.len(),
    ensures
        draws(
            out + encode_scalar(cell.text[n] as u32),
            size,
            origin,
            typed_over(c, at, cell, n + 1),
        ),
{
    let ch = cell.text[n];
    let col = at.col as int;
    let last = col + 1 == size.cols;
    let d = typed_over(c, at, cell, n);
    let before = c.cells[at.row as int];
    let cells = d.cells[at.row as int];
    let now = partial(cell, n, last);
    assert(printable(ch));
    assert(joins_at(cell.text, n, cell.attrs, size.cols as int));
    assert(cells[col] == now);
    assert(cell.text.take(n + 1) =~= now.text.push(ch));
    if last {
        lemma_narrow_in_last_column(cell.text, n);
    }
    assert(can_fuse(d, size, col, ch));
    lemma_fuse(out, size, origin, d, col, ch);
    lemma_glyph_follows(before, col);
    if col + 1 < size.cols {
        lemma_glyph_follows(before, col + 1);
    }
    lemma_widened(cell.text, n, last);
    let e = fused(d, col, ch);
    let after = e.cells[at.row as int];
    let row = typed_row(before, cell, n + 1, col);
    assert(now.appended(ch).text =~= cell.text.take(n + 1));
    assert(after[col] == row[col]);
    assert forall|j: int| 0 <= j < size.cols implies #[trigger] after[j] == row[j] by {}
    assert(after =~= row);
    assert(e.cells =~= typed_over(c, at, cell, n + 1).cells);
    assert(e.wraps =~= typed_over(c, at, cell, n + 1).wraps);
}

/// Text was wide so far where it was before, or has just become wide.
proof fn lemma_widened(text: Seq<char>, n: int, last: bool)
    requires
        1 <= n,
    ensures
        was_wide(text, n + 2, last) == (was_wide(text, n + 1, last) || wide_after(text, n + 1, last)),
        wide_after(text, n, last) ==> was_wide(text, n + 1, last),
{
    if was_wide(text, n + 1, last) {
        let k = choose|k: int| 1 <= k < n + 1 && #[trigger] wide_after(text, k, last);
        assert(1 <= k < n + 2 && wide_after(text, k, last));
    }
    if wide_after(text, n + 1, last) {
        assert(1 <= n + 1 < n + 2);
    }
    if was_wide(text, n + 2, last) {
        let k = choose|k: int| 1 <= k < n + 2 && #[trigger] wide_after(text, k, last);
        if k < n + 1 {
            assert(1 <= k < n + 1 && wide_after(text, k, last));
        }
    }
}

/// The text of a cell typed over what is there.
proof fn lemma_type_over(
    out: Seq<u8>,
    size: Size,
    origin: ScreenModel,
    c: CanvasModel,
    at: Pos,
    cell: CellModel,
    n: int,
)
    requires
        draws(out, size, origin, c),
        typeable_over(c, at, cell, size),
        1 <= n <= cell.text.len(),
    ensures
        draws(out + encode_utf8(cell.text.take(n)), size, origin, typed_over(c, at, cell, n)),
    decreases n,
{
    if n == 1 {
        lemma_type_first_over(out, size, origin, c, at, cell);
    } else {
        lemma_type_over(out, size, origin, c, at, cell, n - 1);
        let written = out + encode_utf8(cell.text.take(n - 1));
        lemma_type_next_over(written, size, origin, c, at, cell, n - 1);
        assert(cell.text.take(n) =~= cell.text.take(n - 1).push(cell.text[n - 1]));
        lemma_literal(cell.text.take(n), cell.text.take(n - 1), cell.text[n - 1]);
        assert(out + encode_utf8(cell.text.take(n)) =~= written + encode_scalar(
            cell.text[n - 1] as u32,
        ));
    }
}

/// Cells of which some columns were erased: a second half whose first half went is
/// cleared too.
spec fn wiped_cells(cells: Seq<CellModel>, from: int, to: int, attrs: AttrsModel) -> Seq<CellModel> {
    Seq::new(
        cells.len(),
        |j: int|
            if from <= j < to {
                CellModel::cleared(attrs)
            } else if j == to && from < to && cells[to - 1].wide {
                CellModel::cleared(cells[to].attrs)
            } else {
                cells[j]
            },
    )
}

/// Whether erasing takes what ends a row, which ends its wrapping.
spec fn wipes_end(cells: Seq<CellModel>, from: int, to: int) -> bool {
    from < to && (to == cells.len() || cells[to - 1].wide && to + 1 == cells.len())
}

proof fn lemma_wiped_cells(cells: Seq<CellModel>, wrapped: bool, from: int, to: int, attrs: AttrsModel)
    requires
        whole(cells),
        0 <= from <= to <= cells.len(),
        from < cells.len() ==> !cells[from].continuation,
    ensures
        as_row(cells, wrapped).erased_range(from, to, attrs).cells == wiped_cells(
            cells,
            from,
            to,
            attrs,
        ),
        as_row(cells, wrapped).erased_range(from, to, attrs).wrapped == (wrapped && !wipes_end(
            cells,
            from,
            to,
        )),
    decreases to - from,
{
    let erased = as_row(cells, wrapped).erased_range(from, to, attrs).cells;
    if from < to {
        lemma_wiped_cells(cells, wrapped, from, to - 1, attrs);
        lemma_glyph_follows(cells, to - 1);
        if from < to - 1 {
            lemma_glyph_follows(cells, to - 2);
            reveal(whole);
            assert(whole_at(cells, to - 1));
        }
    }
    assert(erased =~= wiped_cells(cells, from, to, attrs));
}

/// What is left after erasing holds no split characters.
proof fn lemma_wiped_whole(cells: Seq<CellModel>, from: int, to: int, attrs: AttrsModel)
    requires
        whole(cells),
        0 <= from < to <= cells.len(),
        !cells[from].continuation,
    ensures
        whole(wiped_cells(cells, from, to, attrs)),
{
    reveal(whole);
    let after = wiped_cells(cells, from, to, attrs);
    assert forall|i: int| 0 <= i < after.len() implies #[trigger] whole_at(after, i) by {
        assert(whole_at(cells, i));
        if i > 0 {
            assert(whole_at(cells, i - 1));
        }
        if i + 1 < cells.len() {
            assert(whole_at(cells, i + 1));
        }
        assert(whole_at(cells, to - 1));
        assert(whole_at(cells, from));
    }
}

/// What is left after typing holds no split characters.
proof fn lemma_typed_whole(before: Seq<CellModel>, cell: CellModel, n: int, col: int)
    requires
        whole(before),
        0 <= col < before.len(),
        !before[col].continuation,
        1 <= n,
        wide_after(cell.text, n, col + 1 == before.len()) ==> col + 1 < before.len(),
    ensures
        whole(typed_row(before, cell, n, col)),
{
    reveal(whole);
    let last = col + 1 == before.len();
    let after = typed_row(before, cell, n, col);
    if wide_after(cell.text, n, last) {
        assert(was_wide(cell.text, n + 1, last));
    }
    assert forall|i: int| 0 <= i < after.len() implies #[trigger] whole_at(after, i) by {
        assert(whole_at(before, i));
        if i > 0 {
            assert(whole_at(before, i - 1));
        }
        if i + 1 < before.len() {
            assert(whole_at(before, i + 1));
        }
        assert(whole_at(before, col));
        if col + 1 < before.len() {
            assert(whole_at(before, col + 1));
        }
        if col + 2 < before.len() {
            assert(whole_at(before, col + 2));
        }
    }
}

/// A blank typed behind the end of the row above, and the cursor put back before it.
proof fn lemma_step_over_wrap_over(
    out: Seq<u8>,
    size: Size,
    origin: ScreenModel,
    c: CanvasModel,
    row: u16,
) -> (d: CanvasModel)
    requires
        draws(out, size, origin, c),
        0 < row < size.rows,
        c.cells.len() == size.rows,
        c.pos == (Pos { row: (row - 1) as u16, col: size.cols }),
        size.cols > 0,
        !would_join(c, ' '),
        c.cells[row as int].len() == size.cols,
        whole(c.cells[row as int]),
        !c.cells[row as int][0].continuation,
        c.wraps.len() == size.rows,
        is_full(c.cells[row - 1]),
    ensures
        draws(out + step_over_wrap(), size, origin, d),
        ({
            let before = c.cells[row as int];
            let blank = CellModel::glyph(' ', false, c.attrs);
            let after = d.cells[row as int];
            &&& d == (CanvasModel {
                cells: c.cells.update(row as int, after),
                wraps: c.wraps.update(row - 1, true),
                pos: Pos { row, col: 0 },
                joins: false,
                ..c
            })
            &&& whole(after)
            &&& after.len() == size.cols
            &&& after[0] == blank
            &&& size.cols > 1 ==> after[1] == (if before[0].wide { blank } else { before[1] })
            &&& forall|j: int| 1 < j < size.cols ==> #[trigger] after[j] == before[j]
        }),
{
    let at = Pos { row, col: 0 };
    let blank = CellModel::glyph(' ', false, c.attrs);
    assert(blank.text =~= seq![' ']);
    assert(columns(' ') == 1 && printable(' '));
    assert(retypes(blank, 0, size.cols as int));
    let before = c.cells[row as int];
    let last = size.cols == 1;
    lemma_type_over(out, size, origin, c, at, blank, 1);
    let typed = typed_over(c, at, blank, 1);
    assert(blank.text.take(1) =~= blank.text);
    assert(!was_wide(blank.text, 2, last)) by {
        if was_wide(blank.text, 2, last) {
            let k = choose|k: int| 1 <= k < 2 && #[trigger] wide_after(blank.text, k, last);
            assert(k == 1);
        }
    }
    lemma_typed_whole(before, blank, 1, 0);
    lemma_single(' ');
    lemma_single('\x08');
    lemma_control(out + encode_scalar(' ' as u32), size, origin, typed, '\x08', at);
    reveal_strlit(" ");
    reveal_strlit("\x08");
    assert(" "@ =~= seq![' ']);
    assert("\x08"@ =~= seq!['\x08']);
    assert(out + step_over_wrap() =~= out + encode_scalar(' ' as u32) + encode_scalar(
        '\x08' as u32,
    ));
    let d = CanvasModel { pos: at, joins: false, ..typed };
    assert(partial(blank, 1, last) == blank);
    assert(d.cells =~= c.cells.update(row as int, d.cells[row as int]));
    assert(d.wraps =~= c.wraps.update(row - 1, true)) by {
        assert(!cuts_end(before, blank, 1, 0)) by {
            if was_wide(blank.text, 2, false) {
                let k = choose|k: int| 1 <= k < 2 && #[trigger] wide_after(blank.text, k, false);
                assert(k == 1);
            }
        }
    }
    d
}

// Rows.

/// Whether a cell leaves nothing wrong behind it when it is typed. Text that is wide at
/// first and narrow in the end clears the column behind it: that is drawn too, or was
/// clear before.
pub open spec fn covered(cells: Seq<CellModel>, shown: Seq<CellModel>, j: int) -> bool {
    j + 1 < cells.len() && !cells[j].wide && was_wide(
        cells[j].text,
        cells[j].text.len() as int,
        false,
    ) ==> cells[j + 1] != shown[j + 1] || shown[j + 1] == CellModel::cleared(cells[j].attrs)
}

/// Whether a row that is shown can be turned into another: its cells are what they become
/// when they are typed, and none that has to be drawn leaves something wrong behind it.
pub open spec fn turnable_row(cells: Seq<CellModel>, shown: Seq<CellModel>, cols: int) -> bool {
    &&& typable_row(cells, cols)
    &&& shown.len() == cols
    &&& whole(shown)
    &&& forall|j: int|
        0 <= j < cols && (#[trigger] shown[j]).continuation ==> shown[j] == second_half()
    &&& forall|j: int|
        0 <= j < cols && (#[trigger] cells[j]) != shown[j] ==> covered(cells, shown, j)
}

/// What comes first on a row: its first character, or the blank that is typed for it.
pub open spec fn first_char(cells: Seq<CellModel>) -> char {
    if cells[0].text.len() > 0 {
        cells[0].text[0]
    } else {
        ' '
    }
}

/// Whether nothing behind the first column of a row is erased before anything is drawn or
/// erased before it.
pub open spec fn draws_first(cells: Seq<CellModel>, shown: Seq<CellModel>) -> bool {
    forall|j: int|
        0 < j < cells.len() && cells[j] != shown[j] && (#[trigger] cells[j]).text.len() == 0
            ==> exists|i: int| 0 <= i < j && cells[i] != #[trigger] shown[i]
}

/// Whether a row into which another one wraps can be turned from there. Text ends the row
/// above. What comes first, where it is drawn, does not join what ends the row above, nor
/// fit there. Where the cursor waits behind the row above, nothing behind the first column
/// is erased before anything is drawn. Where the row above starts to wrap, what comes first
/// is typed again, and leaves nothing wrong behind it.
pub open spec fn turns_from_above(
    above: Seq<CellModel>,
    cells: Seq<CellModel>,
    shown: Seq<CellModel>,
    starts: bool,
    waits: bool,
) -> bool {
    let next = first_char(cells);
    let first = cells[0];
    &&& filled_end(above)
    &&& starts && first == shown[0] ==> covered(cells, shown, 0) && !(cells.len() == 3
        && shown[1].wide && !first.wide && was_wide(first.text, first.text.len() as int, false))
    &&& starts || first != shown[0] ==> {
        &&& !joinable(above[last_glyph_col(above)], next)
        &&& first.wide && above.len() >= 2 ==> columns(next) >= 2 && !joinable(
            above[owner_col(above, above.len() - 2)],
            next,
        )
    }
    &&& waits ==> draws_first(cells, shown)
}

/// Whether text that is drawn at a column does not join the text that was typed last.
pub open spec fn goes_apart(col: int, cells: Seq<CellModel>, shown: Seq<CellModel>) -> bool {
    0 < col < cells.len() && cells[col] != shown[col] && cells[col].text.len() > 0 ==> !joinable(
        shown[owner_col(shown, col - 1)],
        cells[col].text[0],
    )
}

/// Whether a row whose wrapping changes can be turned: what ends one that stops wrapping is
/// text or is erased with the rest, and text that ends a row does not join what is before
/// it.
pub open spec fn turns_wrapping(
    cells: Seq<CellModel>,
    shown: Seq<CellModel>,
    wrapped: bool,
) -> bool {
    let col = last_glyph_col(cells);
    let end = cells[col];
    &&& !wrapped ==> end.text.len() > 0 || end != shown[col]
    &&& end.text.len() > 0 && col > 0 ==> !joinable(cells[owner_col(cells, col - 1)], end.text[0])
}

/// Whether nothing that is drawn cuts off what ends a row that wraps: where a wide
/// character ends the row that is shown, text takes its place, and no text before it is
/// wide at first and narrow in the end.
pub open spec fn keeps_end(cells: Seq<CellModel>, shown: Seq<CellModel>) -> bool {
    let cols = cells.len() as int;
    &&& filled_end(cells)
    &&& cols >= 2 && shown[cols - 2].wide ==> cells[cols - 2].text.len() > 0
    &&& cols >= 3 && shown[cols - 2].wide && cells[cols - 3] != shown[cols - 3] && !cells[cols
        - 3].wide ==> !was_wide(cells[cols - 3].text, cells[cols - 3].text.len() as int, false)
}

/// A cell that is still as it was, or will be written, by itself or with the wide
/// character that it is the second half of.
spec fn pending(now: CellModel, shown: Seq<CellModel>, cells: Seq<CellModel>, j: int) -> bool {
    ||| now == shown[j]
    ||| !now.wide && shown[j] != cells[j]
    ||| !now.wide && cells[j].continuation && 0 < j && shown[j - 1] != cells[j - 1]
}

/// Whether text still waits behind the row above, and will wrap from there as soon as
/// something is written.
spec fn still_waits(
    pen: PenModel,
    base: CanvasModel,
    cells: Seq<CellModel>,
    shown: Seq<CellModel>,
    row: u16,
    k: int,
    size: Size,
) -> bool {
    &&& pen.pos == base.pos
    &&& base.pos == (Pos { row: (row - 1) as u16, col: size.cols })
    &&& pen.last is None
    &&& if k == 0 {
        pen.erase is None && cells[0] != shown[0]
    } else {
        pen.erase matches Some((col, _)) && col == 0
    }
}

/// Whether a cell has to be erased.
spec fn is_erased(cells: Seq<CellModel>, shown: Seq<CellModel>, j: int) -> bool {
    cells[j] != shown[j] && cells[j].text.len() == 0 && !cells[j].continuation
}

/// Where the cursor is on a row once something was written there: behind the row only where
/// what ends the row was drawn.
spec fn pen_moved(
    pos: Pos,
    cells: Seq<CellModel>,
    shown: Seq<CellModel>,
    row: u16,
    cols: int,
) -> bool {
    let end = last_glyph_col(cells);
    pos.row == row && (pos.col >= cols ==> cells[end] != shown[end])
}

/// A row turned into another as far as a column.
#[verifier::opaque]
spec fn diff_so_far(
    pen: PenModel,
    c: CanvasModel,
    base: CanvasModel,
    cells: Seq<CellModel>,
    shown: Seq<CellModel>,
    row: u16,
    k: int,
    size: Size,
    wrapping: bool,
) -> bool {
    let now = c.cells[row as int];
    let cols = size.cols as int;
    let from = match pen.erase {
        Some((col, _)) => col as int,
        None => k,
    };
    &&& c == (CanvasModel {
        cells: c.cells,
        wraps: c.wraps,
        pos: pen.pos,
        attrs: pen.attrs,
        joins: c.joins,
        ..base
    })
    &&& c.cells.len() == size.rows
    &&& c.wraps.len() == size.rows
    &&& forall|i: int| 0 <= i < size.rows && i != row ==> #[trigger] c.cells[i] == base.cells[i]
    &&& forall|i: int|
        0 <= i < size.rows && i != row && i != row - 1 ==> #[trigger] c.wraps[i] == base.wraps[i]
    &&& row > 0 ==> c.wraps[row - 1] == wrapping || wrapping && still_waits(
        pen,
        base,
        cells,
        shown,
        row,
        k,
        size,
    )
    &&& c.wraps[row as int] ==> base.wraps[row as int]
    &&& base.wraps[row as int] && keeps_end(cells, shown) ==> c.wraps[row as int]
    &&& now.len() == cols
    &&& whole(now)
    &&& pen.skip == (k > 0 && cells[k - 1].wide)
    &&& pen.skip ==> k < cols && now[k] == second_half()
    &&& forall|j: int| 0 <= j < from ==> #[trigger] now[j] == cells[j]
    &&& forall|j: int|
        (if pen.skip { from + 1 } else { from }) <= j < cols ==> pending(
            #[trigger] now[j],
            shown,
            cells,
            j,
        )
    &&& pen.erase matches Some((col, attrs)) ==> {
        &&& col < k
        &&& !pen.skip
        &&& cells[col as int] != shown[col as int]
        &&& forall|j: int| col <= j < k ==> #[trigger] cells[j] == CellModel::cleared(attrs)
    }
    &&& k > 0 && is_erased(cells, shown, k - 1) ==> cells[k - 1].attrs == (match pen.erase {
        Some((_, attrs)) => attrs,
        None => pen.attrs,
    })
    &&& pen.pos.row < size.rows
    &&& pen.pos.col <= cols
    &&& pen_moved(pen.pos, cells, shown, row, cols) || pen.pos == base.pos && forall|j: int|
        0 <= j < from ==> #[trigger] cells[j] == shown[j]
    &&& pen.pos.row < row ==> c.cells == base.cells && pen.last is None && now == shown
    &&& c.joins ==> match pen.last {
        Some(text) => {
            &&& pen.pos.row == row
            &&& 0 < pen.pos.col
            &&& now[owner_col(now, pen.pos.col - 1)].text == text
        },
        None => base.joins && pen.pos == base.pos && c.cells == base.cells,
    }
}

/// What follows the columns that are done is no second half, unless it is to be one.
proof fn lemma_edge(now: Seq<CellModel>, cells: Seq<CellModel>, k: int)
    requires
        whole(now),
        whole(cells),
        now.len() == cells.len(),
        0 <= k < cells.len(),
        !cells[k].continuation,
        k > 0 ==> now[k - 1] == cells[k - 1],
    ensures
        !now[k].continuation,
{
    reveal(whole);
    assert(whole_at(now, k));
    assert(whole_at(cells, k));
    if k > 0 {
        assert(whole_at(cells, k - 1));
    }
}

/// What a row that is turned starts from.
spec fn turns_row(
    base: CanvasModel,
    above: Seq<CellModel>,
    cells: Seq<CellModel>,
    shown: Seq<CellModel>,
    row: u16,
    size: Size,
    wrapping: bool,
) -> bool {
    &&& turnable_row(cells, shown, size.cols as int)
    &&& row < size.rows
    &&& size.cols > 0
    &&& base.wraps.len() == size.rows
    &&& row > 0 && !wrapping ==> !base.wraps[row - 1]
    &&& base.cells[row as int] == shown
    &&& base.joins && base.pos.row == row ==> goes_apart(base.pos.col as int, cells, shown)
    &&& wrapping ==> {
        &&& 0 < row
        &&& base.cells[row - 1] == above
        &&& above.len() == size.cols
        &&& turns_from_above(
            above,
            cells,
            shown,
            !base.wraps[row - 1],
            base.pos == (Pos { row: (row - 1) as u16, col: size.cols }),
        )
    }
}

/// What waits behind the row above does not join it.
proof fn lemma_waits_apart_over(
    c: CanvasModel,
    base: CanvasModel,
    above: Seq<CellModel>,
    cells: Seq<CellModel>,
    shown: Seq<CellModel>,
    row: u16,
    size: Size,
)
    requires
        turns_row(base, above, cells, shown, row, size, true),
        !base.wraps[row - 1] || cells[0] != shown[0],
        c.cells.len() == size.rows,
        c.cells[row - 1] == base.cells[row - 1],
        c.pos.row + 1 == row,
        size.cols - (if cells[0].wide { 1int } else { 0int }) <= c.pos.col <= size.cols,
    ensures
        !would_join(c, first_char(cells)),
{
    let cols = size.cols as int;
    assert(owner_col(above, cols - 1) == last_glyph_col(above));
}

/// The cursor put where erasing starts.
#[verifier::spinoff_prover]
proof fn lemma_flush_move_over(
    pen: PenModel,
    c: CanvasModel,
    base: CanvasModel,
    above: Seq<CellModel>,
    cells: Seq<CellModel>,
    shown: Seq<CellModel>,
    row: u16,
    k: int,
    size: Size,
    origin: ScreenModel,
    wrapping: bool,
) -> (d: CanvasModel)
    requires
        draws(pen.out, size, origin, c),
        turns_row(base, above, cells, shown, row, size, wrapping),
        diff_so_far(pen, c, base, cells, shown, row, k, size, wrapping),
        0 <= k <= size.cols,
        pen.erase is Some,
    ensures
        ({
            let (col, attrs) = pen.erase.unwrap();
            let to = Pos { row, col };
            let waits = wrapping && pen.waits_to_wrap(row, size.cols as int);
            let blanks = if col > 0 { encode_utf8(spaces(col as int)) } else { step_over_wrap() };
            let now = d.cells[row as int];
            &&& draws(
                pen.out + (if waits { blanks } else { term::move_from_to(pen.pos, to) }),
                size,
                origin,
                d,
            )
            &&& d == (CanvasModel { cells: d.cells, wraps: d.wraps, pos: to, joins: d.joins, ..c })
            &&& d.wraps.len() == size.rows
            &&& forall|i: int|
                0 <= i < size.rows && i != row - 1 ==> #[trigger] d.wraps[i] == c.wraps[i]
            &&& row > 0 ==> d.wraps[row - 1] == wrapping
            &&& d.cells == c.cells.update(row as int, now)
            &&& now.len() == size.cols
            &&& whole(now)
            &&& !now[col as int].continuation
            &&& forall|j: int| 0 <= j < col ==> #[trigger] now[j] == cells[j]
            &&& forall|j: int| col <= j < size.cols ==> pending(#[trigger] now[j], shown, cells, j)
        }),
{
    reveal(diff_so_far);
    let cols = size.cols as int;
    let (col, attrs) = pen.erase.unwrap();
    let to = Pos { row, col };
    let now = c.cells[row as int];
    assert(cells[col as int] == CellModel::cleared(attrs));
    lemma_edge(now, cells, col as int);
    if wrapping && pen.waits_to_wrap(row, cols) {
        assert(now == shown);
        if col > 0 {
            let i = choose|i: int| 0 <= i < col && cells[i] != #[trigger] shown[i];
            assert(now[i] == cells[i]);
        }
        assert(first_char(cells) == ' ');
        assert(c.cells[row - 1] == base.cells[row - 1]);
        lemma_waits_apart_over(c, base, above, cells, shown, row, size);
        let d = lemma_step_over_wrap_over(pen.out, size, origin, c, row);
        let after = d.cells[row as int];
        assert forall|j: int| col <= j < cols implies pending(#[trigger] after[j], shown, cells, j) by {
            assert(pending(now[j], shown, cells, j));
            if j == 1 && now[0].wide {
                lemma_glyph_follows(now, 0);
                lemma_glyph_follows(cells, 0);
            }
        }
        d
    } else {
        lemma_move_from_to(pen.out, size, origin, c, to);
        let d = CanvasModel { pos: to, joins: c.joins && to == c.pos, ..c };
        assert(d.cells =~= c.cells.update(row as int, now));
        d
    }
}

/// What is still to be erased on a row erased.
#[verifier::spinoff_prover]
proof fn lemma_flush_over(
    pen: PenModel,
    c: CanvasModel,
    base: CanvasModel,
    above: Seq<CellModel>,
    cells: Seq<CellModel>,
    shown: Seq<CellModel>,
    row: u16,
    k: int,
    size: Size,
    origin: ScreenModel,
    wrapping: bool,
    end: Option<u16>,
) -> (d: CanvasModel)
    requires
        draws(pen.out, size, origin, c),
        turns_row(base, above, cells, shown, row, size, wrapping),
        diff_so_far(pen, c, base, cells, shown, row, k, size, wrapping),
        0 <= k <= size.cols,
        match end {
            Some(end) => end == k,
            None => k == size.cols,
        },
    ensures
        ({
            let after = pen.flushed(row, end, size.cols as int, wrapping);
            &&& draws(after.out, size, origin, d)
            &&& diff_so_far(after, d, base, cells, shown, row, k, size, wrapping)
            &&& after.erase is None
        }),
{
    match pen.erase {
        None => c,
        Some((col, attrs)) => {
            let cols = size.cols as int;
            let to = Pos { row, col };
            let moved = lemma_flush_move_over(
                pen,
                c,
                base,
                above,
                cells,
                shown,
                row,
                k,
                size,
                origin,
                wrapping,
            );
            reveal(diff_so_far);
            let now = moved.cells[row as int];
            let waits = wrapping && pen.waits_to_wrap(row, cols);
            let blanks = if col > 0 { encode_utf8(spaces(col as int)) } else { step_over_wrap() };
            let out1 = pen.out + (if waits { blanks } else { term::move_from_to(pen.pos, to) });
            lemma_recolor(out1, size, origin, moved, attrs);
            let colored = CanvasModel { attrs, ..moved };
            let out2 = out1 + attrs_diff(attrs, moved.attrs);
            let d = wiped(colored, col as int, k);
            match end {
                Some(end) => {
                    lemma_erase_char(out2, size, origin, colored, k - col);
                },
                None => {
                    lemma_erase_to_end(out2, size, origin, colored);
                },
            }
            lemma_wiped_cells(now, colored.wraps[row as int], col as int, k, attrs);
            assert(keeps_end(cells, shown) ==> !wipes_end(now, col as int, k)) by {
                assert(cells[k - 1] == CellModel::cleared(attrs));
                assert(pending(now[k - 1], shown, cells, k - 1));
            }
            lemma_wiped_whole(now, col as int, k, attrs);
            let after = wiped_cells(now, col as int, k, attrs);
            assert(d.cells[row as int] == after);
            assert forall|j: int| 0 <= j < k implies #[trigger] after[j] == cells[j] by {
                if j < col {
                    assert(now[j] == cells[j]);
                }
            }
            assert forall|j: int| k <= j < cols implies pending(#[trigger] after[j], shown, cells, j) by {
                assert(pending(now[j], shown, cells, j));
                if j == k && now[k - 1].wide {
                    assert(cells[k - 1] == CellModel::cleared(attrs));
                    lemma_glyph_follows(now, k - 1);
                    lemma_glyph_follows(cells, k - 1);
                }
            }
            assert forall|i: int| 0 <= i < size.rows && i != row implies #[trigger] d.cells[i]
                == base.cells[i] by {
                assert(c.cells[i] == base.cells[i]);
            }
            d
        },
    }
}

/// The cursor put where a cell is drawn, or left where its text wraps from.
#[verifier::spinoff_prover]
proof fn lemma_draw_place_over(
    pen: PenModel,
    c: CanvasModel,
    base: CanvasModel,
    above: Seq<CellModel>,
    cells: Seq<CellModel>,
    shown: Seq<CellModel>,
    row: u16,
    k: int,
    size: Size,
    origin: ScreenModel,
    wrapping: bool,
) -> (d: CanvasModel)
    requires
        draws(pen.out, size, origin, c),
        turns_row(base, above, cells, shown, row, size, wrapping),
        diff_so_far(pen, c, base, cells, shown, row, k, size, wrapping),
        0 <= k < size.cols,
        pen.erase is None,
        !pen.skip,
        cells[k].text.len() > 0,
        cells[k] != shown[k],
    ensures
        ({
            let cell = cells[k];
            let to = Pos { row, col: k as u16 };
            let wraps_here = wrapping && pen.pos.row + 1 == row && pen.pos.col >= size.cols - (
            if cell.wide {
                1int
            } else {
                0int
            }) && k == 0;
            let out1 = pen.out + (if to == pen.pos || wraps_here {
                Seq::empty()
            } else {
                term::move_from_to(pen.pos, to)
            });
            let out2 = out1 + attrs_diff(cell.attrs, pen.attrs);
            let joins = match pen.last {
                Some(text) => !stands_apart(text, cell.text[0]),
                None => false,
            };
            let out3 = out2 + (if joins { term::move_to(to) } else { Seq::empty() });
            &&& draws(out3, size, origin, d)
            &&& d == (CanvasModel { pos: d.pos, attrs: cell.attrs, joins: d.joins, ..c })
            &&& typeable_over(d, to, cell, size)
            &&& landed(d, to).len() == size.rows
            &&& forall|i: int|
                0 <= i < size.rows && i != row - 1 ==> #[trigger] landed(d, to)[i] == c.wraps[i]
            &&& row > 0 ==> landed(d, to)[row - 1] == wrapping
        }),
{
    reveal(diff_so_far);
    let cell = cells[k];
    let cols = size.cols as int;
    let to = Pos { row, col: k as u16 };
    let now = c.cells[row as int];
    assert(retypes(cells[k], k, cols));
    if k > 0 {
        lemma_glyph_follows(cells, k - 1);
    }
    assert(!cell.continuation) by {
        reveal(whole);
        assert(whole_at(cells, k));
    }
    lemma_edge(now, cells, k);
    let wraps_here = wrapping && pen.pos.row + 1 == row && pen.pos.col >= cols - (if cell.wide {
        1int
    } else {
        0int
    }) && k == 0;
    if wrapping && still_waits(pen, base, cells, shown, row, k, size) {
        assert(k == 0);
        assert(wraps_here);
    }
    lemma_glyph_follows(cells, k);
    if wraps_here {
        assert(c.cells[row - 1] == base.cells[row - 1]);
        assert(is_full(above));
        assert(pen.last is None);
    }
    let stays = to == pen.pos || wraps_here;
    let out1 = pen.out + (if stays { Seq::empty() } else { term::move_from_to(pen.pos, to) });
    let placed = if stays { c } else { CanvasModel { pos: to, joins: false, ..c } };
    if stays {
        assert(out1 =~= pen.out);
    } else {
        lemma_move_from_to(pen.out, size, origin, c, to);
    }
    lemma_recolor(out1, size, origin, placed, cell.attrs);
    let colored = CanvasModel { attrs: cell.attrs, ..placed };
    let out2 = out1 + attrs_diff(cell.attrs, pen.attrs);
    let joins = match pen.last {
        Some(text) => !stands_apart(text, cell.text[0]),
        None => false,
    };
    if joins {
        lemma_move_to(out2, size, origin, colored, to);
        CanvasModel { pos: to, joins: false, ..colored }
    } else {
        assert(out2 + Seq::<u8>::empty() =~= out2);
        if wraps_here {
            lemma_waits_apart_over(colored, base, above, cells, shown, row, size);
        }
        assert(!would_join(colored, cell.text[0]));
        assert(typeable_over(colored, to, cell, size));
        assert(row > 0 ==> landed(colored, to)[row - 1] == wrapping);
        assert forall|i: int| 0 <= i < size.rows && i != row - 1 implies #[trigger] landed(
            colored,
            to,
        )[i] == c.wraps[i] by {}
        colored
    }
}

/// The text of a cell drawn over what is there.
#[verifier::spinoff_prover]
proof fn lemma_draw_over(
    pen: PenModel,
    c: CanvasModel,
    base: CanvasModel,
    above: Seq<CellModel>,
    cells: Seq<CellModel>,
    shown: Seq<CellModel>,
    row: u16,
    k: int,
    size: Size,
    origin: ScreenModel,
    wrapping: bool,
) -> (d: CanvasModel)
    requires
        draws(pen.out, size, origin, c),
        turns_row(base, above, cells, shown, row, size, wrapping),
        diff_so_far(pen, c, base, cells, shown, row, k, size, wrapping),
        0 <= k < size.cols,
        pen.erase is None,
        !pen.skip,
        cells[k].text.len() > 0,
        cells[k] != shown[k],
    ensures
        ({
            let skipping = PenModel { skip: cells[k].wide, ..pen };
            let after = skipping.draw(cells[k], row, k as u16, size.cols as int, wrapping);
            &&& draws(after.out, size, origin, d)
            &&& diff_so_far(after, d, base, cells, shown, row, k + 1, size, wrapping)
        }),
{
    let cell = cells[k];
    let cols = size.cols as int;
    let last = k + 1 == cols;
    let to = Pos { row, col: k as u16 };
    let now = c.cells[row as int];
    let skipping = PenModel { skip: cell.wide, ..pen };
    let after = skipping.draw(cell, row, k as u16, cols, wrapping);
    let apart = lemma_draw_place_over(
        pen,
        c,
        base,
        above,
        cells,
        shown,
        row,
        k,
        size,
        origin,
        wrapping,
    );
    reveal(diff_so_far);
    let wraps_here = wrapping && pen.pos.row + 1 == row && pen.pos.col >= cols - (if cell.wide {
        1int
    } else {
        0int
    }) && k == 0;
    let out1 = pen.out + (if to == pen.pos || wraps_here {
        Seq::empty()
    } else {
        term::move_from_to(pen.pos, to)
    });
    let out2 = out1 + attrs_diff(cell.attrs, pen.attrs);
    let joins = match pen.last {
        Some(text) => !stands_apart(text, cell.text[0]),
        None => false,
    };
    let out3 = out2 + (if joins { term::move_to(to) } else { Seq::empty() });
    let n = cell.text.len() as int;
    assert(cell.text.take(n) =~= cell.text);
    lemma_type_over(out3, size, origin, apart, to, cell, n);
    let d = typed_over(apart, to, cell, n);
    assert(after.out =~= out3 + encode_utf8(cell.text));
    assert(retypes(cells[k], k, cols));
    lemma_glyph_follows(cells, k);
    assert(partial(cell, n, last) == cell);
    lemma_typed_whole(now, cell, n, k);
    lemma_typed_row_follows(now, cells, shown, k, cols);
    let done = d.cells[row as int];
    assert(done == typed_row(now, cell, n, k));
    assert forall|j: int| 0 <= j < k + 1 implies #[trigger] done[j] == cells[j] by {
        if j < k {
            assert(now[j] == cells[j]);
        }
    }
    assert(keeps_end(cells, shown) ==> !cuts_end(now, cell, n, k)) by {
        if keeps_end(cells, shown) && cuts_end(now, cell, n, k) {
            assert(pending(now[k + 1], shown, cells, k + 1));
            assert(retypes(cells[k + 1], k + 1, cols));
            if !cell.wide {
                let i = choose|i: int| 1 <= i < n + 1 && #[trigger] wide_after(cell.text, i, false);
                assert(i < n);
                assert(was_wide(cell.text, n, last));
            }
        }
    }
    assert(after.pos == d.pos);
    assert(done[owner_col(done, after.pos.col - 1)].text == cell.text);
    assert forall|i: int| 0 <= i < size.rows && i != row implies #[trigger] d.cells[i]
        == base.cells[i] by {
        assert(c.cells[i] == base.cells[i]);
    }
    d
}

/// What typing leaves behind a cell is as it was, or will be written.
proof fn lemma_typed_row_follows(
    now: Seq<CellModel>,
    cells: Seq<CellModel>,
    shown: Seq<CellModel>,
    k: int,
    cols: int,
)
    requires
        turnable_row(cells, shown, cols),
        now.len() == cols,
        whole(now),
        0 <= k < cols,
        !cells[k].continuation,
        cells[k].text.len() > 0,
        cells[k] != shown[k] || !cells[k].wide && now == shown,
        covered(cells, shown, k),
        forall|j: int| k <= j < cols ==> pending(#[trigger] now[j], shown, cells, j),
    ensures
        ({
            let done = typed_row(now, cells[k], cells[k].text.len() as int, k);
            forall|j: int|
                (if cells[k].wide { k + 2 } else { k + 1 }) <= j < cols ==> pending(
                    #[trigger] done[j],
                    shown,
                    cells,
                    j,
                )
        }),
{
    let cell = cells[k];
    let n = cell.text.len() as int;
    let last = k + 1 == cols;
    let done = typed_row(now, cell, n, k);
    assert(retypes(cells[k], k, cols));
    lemma_glyph_follows(now, k);
    lemma_glyph_follows(cells, k);
    let widened = was_wide(cell.text, n + 1, last);
    if !cell.wide && widened {
        let i = choose|i: int| 1 <= i < n + 1 && #[trigger] wide_after(cell.text, i, last);
        if i < n {
            assert(was_wide(cell.text, n, last));
        }
    }
    assert forall|j: int| (if cell.wide { k + 2 } else { k + 1 }) <= j < cols implies pending(
        #[trigger] done[j],
        shown,
        cells,
        j,
    ) by {
        assert(pending(now[j], shown, cells, j));
        if k + 1 < cols {
            assert(pending(now[k + 1], shown, cells, k + 1));
            lemma_glyph_follows(shown, k);
            lemma_glyph_follows(shown, k + 1);
            lemma_glyph_follows(now, k + 1);
            lemma_glyph_follows(cells, k + 1);
            reveal(whole);
            assert(whole_at(cells, k + 1));
        }
    }
}

/// One more column turned.
#[verifier::spinoff_prover]
proof fn lemma_step_over(
    pen: PenModel,
    c: CanvasModel,
    base: CanvasModel,
    above: Seq<CellModel>,
    cells: Seq<CellModel>,
    shown: Seq<CellModel>,
    row: u16,
    k: int,
    size: Size,
    origin: ScreenModel,
    wrapping: bool,
) -> (d: CanvasModel)
    requires
        draws(pen.out, size, origin, c),
        turns_row(base, above, cells, shown, row, size, wrapping),
        diff_so_far(pen, c, base, cells, shown, row, k, size, wrapping),
        0 <= k < size.cols,
    ensures
        ({
            let after = pen.step(cells[k], shown[k], row, k as u16, size.cols as int, wrapping);
            &&& draws(after.out, size, origin, d)
            &&& diff_so_far(after, d, base, cells, shown, row, k + 1, size, wrapping)
        }),
{
    reveal(diff_so_far);
    let cols = size.cols as int;
    let cell = cells[k];
    let now = c.cells[row as int];
    assert(retypes(cells[k], k, cols));
    lemma_glyph_follows(cells, k);
    if k > 0 {
        lemma_glyph_follows(cells, k - 1);
    } else {
        reveal(whole);
        assert(whole_at(cells, 0));
    }
    if pen.skip {
        assert forall|j: int| 0 <= j < k + 1 implies #[trigger] now[j] == cells[j] by {}
        lemma_glyph_follows(shown, k - 1);
        if cells[k - 1] == shown[k - 1] {
            assert(shown[k].continuation);
            assert(cells[k] == shown[k]);
        }
        c
    } else {
        let ends_erasing = match pen.erase {
            Some((_, attrs)) => cell.text.len() > 0 || cell.attrs != attrs,
            None => false,
        };
        let skipping = PenModel { skip: cell.wide, ..pen };
        let flushed = pen.flushed(row, Some(k as u16), cols, wrapping);
        assert(skipping.flushed(row, Some(k as u16), cols, wrapping) == (PenModel {
            skip: cell.wide,
            ..flushed
        }));
        let ready = if ends_erasing { flushed } else { pen };
        let d = if ends_erasing {
            lemma_flush_over(
                pen,
                c,
                base,
                above,
                cells,
                shown,
                row,
                k,
                size,
                origin,
                wrapping,
                Some(k as u16),
            )
        } else {
            c
        };
        assert(!ready.skip);
        if cell != shown[k] && cell.text.len() > 0 {
            lemma_draw_over(ready, d, base, above, cells, shown, row, k, size, origin, wrapping)
        } else {
            if cell.text.len() == 0 {
                assert(cell.text =~= Seq::<char>::empty());
                assert(cell == CellModel::cleared(cell.attrs));
            }
            lemma_still_step(ready, d, base, cells, shown, row, k, size, wrapping);
            d
        }
    }
}

/// A column that stays, or that is erased later.
#[verifier::spinoff_prover]
proof fn lemma_still_step(
    ready: PenModel,
    d: CanvasModel,
    base: CanvasModel,
    cells: Seq<CellModel>,
    shown: Seq<CellModel>,
    row: u16,
    k: int,
    size: Size,
    wrapping: bool,
)
    requires
        turnable_row(cells, shown, size.cols as int),
        diff_so_far(ready, d, base, cells, shown, row, k, size, wrapping),
        0 <= k < size.cols,
        !ready.skip,
        !cells[k].continuation,
        cells[k] == shown[k] || cells[k].text.len() == 0,
        cells[k].text.len() == 0 ==> cells[k] == CellModel::cleared(cells[k].attrs),
        ready.erase matches Some((_, attrs)) ==> cells[k].text.len() == 0 && cells[k].attrs == attrs,
    ensures
        ({
            let skipping = PenModel { skip: cells[k].wide, ..ready };
            let after = if cells[k] != shown[k] && ready.erase is None {
                PenModel { erase: Some((k as u16, cells[k].attrs)), ..skipping }
            } else {
                skipping
            };
            diff_so_far(after, d, base, cells, shown, row, k + 1, size, wrapping)
        }),
{
    reveal(diff_so_far);
    let cols = size.cols as int;
    let now = d.cells[row as int];
    assert(pending(now[k], shown, cells, k));
    lemma_glyph_follows(cells, k);
    if cells[k] == shown[k] && cells[k].wide {
        // The second half stays too.
        assert(now[k] == cells[k]);
        lemma_glyph_follows(now, k);
        lemma_glyph_follows(shown, k);
        assert(retypes(cells[k + 1], k + 1, cols));
        assert(shown[k + 1].continuation);
        assert(pending(now[k + 1], shown, cells, k + 1));
    }
}

/// The columns of a row turned, one after the other.
proof fn lemma_steps_over(
    pen: PenModel,
    c: CanvasModel,
    base: CanvasModel,
    above: Seq<CellModel>,
    cells: Seq<CellModel>,
    shown: Seq<CellModel>,
    row: u16,
    k: int,
    size: Size,
    origin: ScreenModel,
    wrapping: bool,
) -> (d: CanvasModel)
    requires
        draws(pen.out, size, origin, c),
        turns_row(base, above, cells, shown, row, size, wrapping),
        diff_so_far(pen, c, base, cells, shown, row, 0, size, wrapping),
        0 <= k <= size.cols,
    ensures
        ({
            let after = pen.steps(cells, shown, row, 0, k, wrapping);
            &&& draws(after.out, size, origin, d)
            &&& diff_so_far(after, d, base, cells, shown, row, k, size, wrapping)
        }),
    decreases k,
{
    if k == 0 {
        c
    } else {
        let before = lemma_steps_over(
            pen,
            c,
            base,
            above,
            cells,
            shown,
            row,
            k - 1,
            size,
            origin,
            wrapping,
        );
        let so_far = pen.steps(cells, shown, row, 0, k - 1, wrapping);
        lemma_step_over(
            so_far,
            before,
            base,
            above,
            cells,
            shown,
            row,
            k - 1,
            size,
            origin,
            wrapping,
        )
    }
}

/// The first cell of a row typed again behind the end of the row above, which now wraps
/// into it, and the cursor put back before it.
#[verifier::spinoff_prover]
proof fn lemma_wrapped_onto(
    pen: PenModel,
    base: CanvasModel,
    above: Seq<CellModel>,
    cells: Seq<CellModel>,
    shown: Seq<CellModel>,
    row: u16,
    size: Size,
    origin: ScreenModel,
) -> (d: CanvasModel)
    requires
        draws(pen.out, size, origin, base),
        turns_row(base, above, cells, shown, row, size, true),
        base.cells.len() == size.rows,
        row > 0,
        pen.attrs == base.attrs,
        cells[0] == shown[0],
        !base.wraps[row - 1],
        base.pos.row + 1 == row,
        base.pos.col <= size.cols,
        base.pos.col >= size.cols - (if cells[0].wide { 1int } else { 0int }),
    ensures
        draws(pen.wrapped_onto(cells[0], row).out, size, origin, d),
        ({
            let now = d.cells[row as int];
            &&& d == (CanvasModel {
                cells: base.cells.update(row as int, now),
                wraps: d.wraps,
                pos: Pos { row, col: 0 },
                attrs: cells[0].attrs,
                joins: false,
                ..base
            })
            &&& now.len() == size.cols
            &&& whole(now)
            &&& forall|j: int| 0 <= j < size.cols ==> pending(#[trigger] now[j], shown, cells, j)
        }),
        d.wraps.len() == size.rows,
        forall|i: int|
            0 <= i < size.rows && i != row && i != row - 1 ==> #[trigger] d.wraps[i] == base.wraps[i],
        d.wraps[row - 1],
        d.wraps[row as int] ==> base.wraps[row as int],
        base.wraps[row as int] && keeps_end(cells, shown) ==> d.wraps[row as int],
{
    let cols = size.cols as int;
    let first = cells[0];
    let at = Pos { row, col: 0 };
    let after = pen.wrapped_onto(first, row);
    assert(retypes(cells[0], 0, cols));
    reveal(whole);
    assert(whole_at(cells, 0));
    assert(whole_at(shown, 0));
    lemma_recolor(pen.out, size, origin, base, first.attrs);
    let colored = CanvasModel { attrs: first.attrs, ..base };
    let out1 = pen.out + attrs_diff(first.attrs, pen.attrs);
    lemma_waits_apart_over(colored, base, above, cells, shown, row, size);
    assert(is_full(above));
    reveal_strlit("\x08");
    assert("\x08"@ =~= seq!['\x08']);
    lemma_single('\x08');
    let back = encode_scalar('\x08' as u32);
    if first.text.len() > 0 {
        let n = first.text.len() as int;
        assert(first.text.take(n) =~= first.text);
        assert(landing(colored, size, first.text[0]) == at);
        lemma_type_over(out1, size, origin, colored, at, first, n);
        let typed = typed_over(colored, at, first, n);
        let now = typed.cells[row as int];
        lemma_typed_whole(shown, first, n, 0);
        if first.wide {
            lemma_typed_again(shown, first, 0, cols);
        } else {
            lemma_typed_row_follows(shown, cells, shown, 0, cols);
            assert(partial(first, n, cols == 1) == first);
        }
        assert(typed.cells =~= base.cells.update(row as int, now));
        if cuts_end(shown, first, n, 0) {
            assert(whole_at(shown, 1));
            let i = choose|i: int| 1 <= i < n + 1 && #[trigger] wide_after(first.text, i, false);
            if i < n {
                assert(was_wide(first.text, n, false));
            }
        }
        let out2 = out1 + encode_utf8(first.text);
        if first.wide {
            let middle = Pos { row, col: 1 };
            lemma_control(out2, size, origin, typed, '\x08', middle);
            let one = CanvasModel { pos: middle, joins: false, ..typed };
            lemma_control(out2 + back, size, origin, one, '\x08', at);
            assert(after.out =~= out2 + back + back);
        } else {
            lemma_control(out2, size, origin, typed, '\x08', at);
            assert(after.out =~= out2 + back);
        }
        CanvasModel { pos: at, joins: false, ..typed }
    } else {
        assert(first.text =~= Seq::<char>::empty());
        assert(first == CellModel::cleared(first.attrs));
        let over = lemma_step_over_wrap_over(out1, size, origin, colored, row);
        let out2 = out1 + step_over_wrap();
        lemma_erase_char(out2, size, origin, over, 1);
        let now = over.cells[row as int];
        lemma_wiped_cells(now, over.wraps[row as int], 0, 1, first.attrs);
        let d = wiped(over, 0, 1);
        assert(d.cells[row as int] =~= shown);
        assert(d.cells =~= base.cells.update(row as int, shown));
        assert(after.out =~= out2 + term::erase_char(1));
        d
    }
}

/// A cell typed over itself changes nothing.
proof fn lemma_typed_again(cells: Seq<CellModel>, cell: CellModel, col: int, cols: int)
    requires
        cells.len() == cols,
        whole(cells),
        0 <= col < cols,
        cells[col] == cell,
        retypes(cell, col, cols),
        !cell.continuation,
        cell.text.len() > 0,
        cell.wide || !was_wide(cell.text, cell.text.len() as int, col + 1 == cols),
        cell.wide && col + 1 < cols ==> cells[col + 1] == second_half(),
    ensures
        typed_row(cells, cell, cell.text.len() as int, col) == cells,
{
    let n = cell.text.len() as int;
    let last = col + 1 == cols;
    assert(cell.text.take(n) =~= cell.text);
    lemma_glyph_follows(cells, col);
    if !cell.wide && was_wide(cell.text, n + 1, last) {
        let k = choose|k: int| 1 <= k < n + 1 && #[trigger] wide_after(cell.text, k, last);
        if k < n {
            assert(was_wide(cell.text, n, last));
        }
    }
    assert(typed_row(cells, cell, n, col) =~= cells);
}

/// The cell that ends a row drawn again, where its wrapping changes.
#[verifier::spinoff_prover]
proof fn lemma_rewrapped(
    pen: PenModel,
    c: CanvasModel,
    cells: Seq<CellModel>,
    shown: Seq<CellModel>,
    row: u16,
    size: Size,
    origin: ScreenModel,
    wrapped: bool,
) -> (d: CanvasModel)
    requires
        draws(pen.out, size, origin, c),
        c.cells.len() == size.rows,
        c.wraps.len() == size.rows,
        row < size.rows,
        c.cells[row as int] == cells,
        typable_row(cells, size.cols as int),
        size.cols > 0,
        turns_wrapping(cells, shown, wrapped),
        cells[last_glyph_col(cells)].text.len() == 0 ==> !wrapped && pen.attrs
            == cells[last_glyph_col(cells)].attrs,
        c.pos == pen.pos,
        c.attrs == pen.attrs,
        c.pos.row < size.rows,
        c.pos.col <= size.cols,
    ensures
        ({
            let col = last_glyph_col(cells);
            let after = pen.rewrapped(cells[col], row, col as u16, wrapped);
            &&& draws(after.out, size, origin, d)
            &&& d == (CanvasModel {
                wraps: d.wraps,
                pos: after.pos,
                attrs: after.attrs,
                joins: d.joins,
                ..c
            })
            &&& d.wraps.len() == size.rows
            &&& forall|i: int| 0 <= i < size.rows && i != row ==> #[trigger] d.wraps[i] == c.wraps[i]
            &&& d.wraps[row as int] ==> wrapped && c.wraps[row as int]
            &&& filled_end(cells) ==> after.pos.col == size.cols
            &&& after.pos.row == row
            &&& after.pos.col <= size.cols
        }),
{
    let cols = size.cols as int;
    let col = last_glyph_col(cells);
    let cell = cells[col];
    let to = Pos { row, col: col as u16 };
    let after = pen.rewrapped(cell, row, col as u16, wrapped);
    lemma_end_cell(cells);
    assert(retypes(cells[col], col, cols));
    lemma_move_from_to(pen.out, size, origin, c, to);
    let moved = CanvasModel { pos: to, joins: c.joins && to == c.pos, ..c };
    let out1 = pen.out + term::move_from_to(pen.pos, to);
    let out2 = if wrapped { out1 } else { out1 + term::erase_char(1) };
    let ready = if wrapped { moved } else { wiped(moved, col, col + 1) };
    let now = ready.cells[row as int];
    if !wrapped {
        lemma_erase_char(out1, size, origin, moved, 1);
        lemma_wiped_cells(cells, moved.wraps[row as int], col, col + 1, moved.attrs);
        assert(wipes_end(cells, col, col + 1));
        lemma_wiped_whole(cells, col, col + 1, moved.attrs);
    }
    if cell.text.len() > 0 {
        lemma_recolor(out2, size, origin, ready, cell.attrs);
        let colored = CanvasModel { attrs: cell.attrs, ..ready };
        let out3 = out2 + attrs_diff(cell.attrs, pen.attrs);
        let n = cell.text.len() as int;
        assert(cell.text.take(n) =~= cell.text);
        assert(!would_join(colored, cell.text[0]));
        assert(landing(colored, size, cell.text[0]) == to);
        lemma_type_over(out3, size, origin, colored, to, cell, n);
        let typed = typed_over(colored, to, cell, n);
        assert(typed.cells[row as int] =~= cells);
        assert(typed.cells =~= c.cells);
        assert(after.out =~= out3 + encode_utf8(cell.text));
        typed
    } else {
        assert(cell.text =~= Seq::<char>::empty());
        assert(cell == CellModel::cleared(cell.attrs));
        assert(ready.cells[row as int] =~= cells);
        assert(ready.cells =~= c.cells);
        assert(after.out =~= out2);
        ready
    }
}

/// Where the cursor is on a row that was written: behind the row only where what ends the
/// row was drawn.
spec fn row_moved(pos: Pos, this: RowModel, prev: RowModel, row: u16, cols: int) -> bool {
    pen_moved(pos, this.cells, prev.cells, row, cols) || pos.row == row && this.wrapped
        != prev.wrapped
}

/// What ends a row that stops wrapping is erased with the rest, where it is no text.
proof fn lemma_end_erased(cells: Seq<CellModel>, shown: Seq<CellModel>, cols: int)
    requires
        typable_row(cells, cols),
        cols > 0,
        turns_wrapping(cells, shown, false),
        !filled_end(cells),
    ensures
        last_glyph_col(cells) == cols - 1,
        is_erased(cells, shown, cols - 1),
{
    reveal(whole);
    let col = last_glyph_col(cells);
    assert(retypes(cells[col], col, cols));
    assert(whole_at(cells, cols - 1));
    assert(whole_at(cells, col));
}

/// A row turned into another.
#[verifier::spinoff_prover]
#[verifier::rlimit(40)]
proof fn lemma_row_over(
    out: Seq<u8>,
    base: CanvasModel,
    above: Seq<CellModel>,
    this: RowModel,
    prev: RowModel,
    row: u16,
    size: Size,
    origin: ScreenModel,
    wrapping: bool,
    prev_wrapping: bool,
) -> (d: CanvasModel)
    requires
        draws(out, size, origin, base),
        turns_row(base, above, this.cells, prev.cells, row, size, wrapping),
        this.wrapped != prev.wrapped ==> turns_wrapping(this.cells, prev.cells, this.wrapped),
        this.wrapped ==> filled_end(this.cells),
        this.wrapped && prev.wrapped ==> keeps_end(this.cells, prev.cells),
        base.wraps[row as int] == prev.wrapped,
        wrapping ==> base.wraps[row - 1] == prev_wrapping,
        wrapping && !base.wraps[row - 1] ==> base.pos == (Pos {
            row: (row - 1) as u16,
            col: size.cols,
        }),
        base.cells.len() == size.rows,
        base.pos.row < size.rows,
        base.pos.col <= size.cols,
    ensures
        ({
            let after = row_diff(
                out,
                this,
                prev,
                0,
                size.cols as int,
                row,
                wrapping,
                prev_wrapping,
                base.pos,
                base.attrs,
            );
            &&& draws(after.out, size, origin, d)
            &&& d == (CanvasModel {
                cells: base.cells.update(row as int, this.cells),
                wraps: d.wraps,
                pos: after.pos,
                attrs: after.attrs,
                joins: d.joins,
                ..base
            })
            &&& d.wraps.len() == size.rows
            &&& forall|i: int|
                0 <= i < size.rows && i != row && i != row - 1 ==> #[trigger] d.wraps[i]
                    == base.wraps[i]
            &&& row > 0 ==> d.wraps[row - 1] == wrapping
            &&& d.wraps[row as int] == (this.wrapped && prev.wrapped)
            &&& this.wrapped && !prev.wrapped ==> after.pos == (Pos { row, col: size.cols })
            &&& after.pos.row < size.rows
            &&& after.pos.col <= size.cols
            &&& d.joins && after.pos.row > row ==> base.joins && after.pos == base.pos
            &&& row_moved(after.pos, this, prev, row, size.cols as int) || after.pos == base.pos
                && this.cells == prev.cells && this.wrapped == prev.wrapped
        }),
{
    let cols = size.cols as int;
    let first = this.cells[0];
    let pen = PenModel {
        out,
        pos: base.pos,
        attrs: base.attrs,
        erase: None,
        last: None,
        skip: false,
    };
    let starts_wrapping = wrapping && !prev_wrapping && first == prev.cells[0] && base.pos.row + 1
        == row && base.pos.col >= cols - (if first.wide { 1int } else { 0int });
    let ready = if starts_wrapping { pen.wrapped_onto(first, row) } else { pen };
    let c = if starts_wrapping {
        lemma_wrapped_onto(pen, base, above, this.cells, prev.cells, row, size, origin)
    } else {
        assert(base.cells =~= base.cells.update(row as int, prev.cells));
        base
    };
    lemma_row_start_over(ready, c, base, this.cells, prev.cells, row, size, wrapping);
    let written = lemma_steps_over(
        ready,
        c,
        base,
        above,
        this.cells,
        prev.cells,
        row,
        cols,
        size,
        origin,
        wrapping,
    );
    let stepped = ready.steps(this.cells, prev.cells, row, 0, cols, wrapping);
    let d = lemma_flush_over(
        stepped,
        written,
        base,
        above,
        this.cells,
        prev.cells,
        row,
        cols,
        size,
        origin,
        wrapping,
        None,
    );
    let after = stepped.flushed(row, None, cols, wrapping);
    lemma_row_end_over(after, d, base, this.cells, prev.cells, row, size, wrapping);
    if this.wrapped == prev.wrapped {
        d
    } else {
        if !filled_end(this.cells) {
            lemma_end_erased(this.cells, prev.cells, cols);
        }
        lemma_rewrapped(after, d, this.cells, prev.cells, row, size, origin, this.wrapped)
    }
}

proof fn lemma_row_start_over(
    pen: PenModel,
    c: CanvasModel,
    base: CanvasModel,
    cells: Seq<CellModel>,
    shown: Seq<CellModel>,
    row: u16,
    size: Size,
    wrapping: bool,
)
    requires
        turnable_row(cells, shown, size.cols as int),
        size.cols > 0,
        row < size.rows,
        ({
            let now = c.cells[row as int];
            &&& c == (CanvasModel {
                cells: base.cells.update(row as int, now),
                wraps: c.wraps,
                pos: pen.pos,
                attrs: pen.attrs,
                joins: c.joins,
                ..base
            })
            &&& now.len() == size.cols
            &&& whole(now)
            &&& forall|j: int| 0 <= j < size.cols ==> pending(#[trigger] now[j], shown, cells, j)
        }),
        c.joins || pen.pos.row < row ==> c.cells == base.cells,
        c.wraps.len() == size.rows,
        forall|i: int|
            0 <= i < size.rows && i != row && i != row - 1 ==> #[trigger] c.wraps[i] == base.wraps[i],
        row > 0 ==> c.wraps[row - 1] == wrapping || wrapping && still_waits(
            pen,
            base,
            cells,
            shown,
            row,
            0,
            size,
        ),
        c.wraps[row as int] ==> base.wraps[row as int],
        base.wraps[row as int] && keeps_end(cells, shown) ==> c.wraps[row as int],
        base.cells.len() == size.rows,
        base.cells[row as int] == shown,
        pen.pos.row < size.rows,
        pen.pos.col <= size.cols,
        c.joins ==> base.joins && pen.pos == base.pos,
        pen.pos == base.pos || pen.pos == (Pos { row, col: 0 }),
        pen.erase is None,
        pen.last is None,
        !pen.skip,
    ensures
        diff_so_far(pen, c, base, cells, shown, row, 0, size, wrapping),
{
    reveal(diff_so_far);
}

proof fn lemma_row_end_over(
    pen: PenModel,
    d: CanvasModel,
    base: CanvasModel,
    cells: Seq<CellModel>,
    shown: Seq<CellModel>,
    row: u16,
    size: Size,
    wrapping: bool,
)
    requires
        turnable_row(cells, shown, size.cols as int),
        diff_so_far(pen, d, base, cells, shown, row, size.cols as int, size, wrapping),
        pen.erase is None,
        row < size.rows,
        size.cols > 0,
        base.cells.len() == size.rows,
    ensures
        d == (CanvasModel {
            cells: base.cells.update(row as int, cells),
            wraps: d.wraps,
            pos: pen.pos,
            attrs: pen.attrs,
            joins: d.joins,
            ..base
        }),
        d.wraps.len() == size.rows,
        forall|i: int|
            0 <= i < size.rows && i != row && i != row - 1 ==> #[trigger] d.wraps[i] == base.wraps[i],
        row > 0 ==> d.wraps[row - 1] == wrapping,
        d.wraps[row as int] ==> base.wraps[row as int],
        base.wraps[row as int] && keeps_end(cells, shown) ==> d.wraps[row as int],
        pen.pos.row < size.rows,
        pen.pos.col <= size.cols,
        d.joins && pen.pos.row > row ==> base.joins && pen.pos == base.pos,
        pen_moved(pen.pos, cells, shown, row, size.cols as int) || pen.pos == base.pos && cells
            == shown,
        is_erased(cells, shown, size.cols - 1) ==> cells[size.cols - 1].attrs == pen.attrs,
{
    reveal(diff_so_far);
    assert(d.cells[row as int] =~= cells);
    assert(d.cells =~= base.cells.update(row as int, cells));
    if !pen_moved(pen.pos, cells, shown, row, size.cols as int) {
        assert(cells =~= shown);
    }
}

// Screens.

/// The rows turned so far.
spec fn rows_turned(
    w: WrittenModel,
    c: CanvasModel,
    start: CanvasModel,
    rows: Seq<RowModel>,
    prev: Seq<RowModel>,
    n: int,
    size: Size,
) -> bool {
    &&& c == (CanvasModel {
        cells: c.cells,
        wraps: c.wraps,
        pos: w.pos,
        attrs: w.attrs,
        joins: c.joins,
        ..start
    })
    &&& c.cells.len() == size.rows
    &&& c.wraps.len() == size.rows
    &&& forall|i: int| 0 <= i < n ==> #[trigger] c.cells[i] == rows[i].cells
    &&& forall|i: int| n <= i < size.rows ==> #[trigger] c.cells[i] == prev[i].cells
    &&& forall|i: int|
        0 <= i < size.rows ==> #[trigger] c.wraps[i] == (if i < n - 1 {
            rows[i].wrapped
        } else if i < n {
            rows[i].wrapped && prev[i].wrapped
        } else {
            prev[i].wrapped
        })
    &&& n > 0 && rows[n - 1].wrapped && !prev[n - 1].wrapped ==> w.pos == (Pos {
        row: (n - 1) as u16,
        col: size.cols,
    })
    &&& w.wrapping == (n > 0 && rows[n - 1].wrapped)
    &&& w.prev_wrapping == (n > 0 && prev[n - 1].wrapped)
    &&& w.pos.row < size.rows
    &&& w.pos.col <= size.cols
    &&& c.joins && w.pos.row >= n ==> start.joins && w.pos == start.pos
    &&& rows_moved(w.pos, rows, prev, n, size.cols as int) || w.pos == start.pos && forall|i: int|
        0 <= i < n ==> same_row(#[trigger] rows[i], prev[i])
}

/// Where the cursor is once some rows were written: behind the last of them only where what
/// ends it was drawn.
spec fn rows_moved(
    pos: Pos,
    rows: Seq<RowModel>,
    prev: Seq<RowModel>,
    n: int,
    cols: int,
) -> bool {
    pos.row < n && (pos.row == n - 1 ==> row_moved(
        pos,
        rows[n - 1],
        prev[n - 1],
        (n - 1) as u16,
        cols,
    ))
}

/// Whether two rows show the same.
pub open spec fn same_row(a: RowModel, b: RowModel) -> bool {
    a.cells == b.cells && a.wrapped == b.wrapped
}

/// Whether the cursor waits behind a row once the rows down to it are turned: what ends it
/// was drawn, or nothing was, and it was there before.
pub open spec fn waits_behind(
    rows: Seq<RowModel>,
    prev: Seq<RowModel>,
    i: int,
    pos: Pos,
    cols: int,
) -> bool {
    let end = last_glyph_col(rows[i].cells);
    ||| rows[i].cells[end] != prev[i].cells[end]
    ||| rows[i].wrapped != prev[i].wrapped
    ||| pos.row == i && pos.col == cols && forall|k: int|
        0 <= k <= i ==> same_row(#[trigger] rows[k], prev[k])
}

/// Whether the rows that are shown can be turned into others, from where the cursor is.
pub open spec fn turnable_rows(
    rows: Seq<RowModel>,
    prev: Seq<RowModel>,
    pos: Pos,
    cols: int,
) -> bool {
    &&& rows.len() == prev.len()
    &&& forall|i: int|
        0 <= i < rows.len() ==> turnable_row(#[trigger] rows[i].cells, prev[i].cells, cols)
    &&& forall|i: int|
        0 < i < rows.len() && rows[i - 1].wrapped ==> turns_from_above(
            rows[i - 1].cells,
            #[trigger] rows[i].cells,
            prev[i].cells,
            !prev[i - 1].wrapped,
            waits_behind(rows, prev, i - 1, pos, cols),
        )
    &&& forall|i: int|
        0 <= i < rows.len() && (#[trigger] rows[i]).wrapped != prev[i].wrapped ==> turns_wrapping(
            rows[i].cells,
            prev[i].cells,
            rows[i].wrapped,
        )
    &&& forall|i: int|
        0 <= i < rows.len() && (#[trigger] rows[i]).wrapped && prev[i].wrapped ==> keeps_end(
            rows[i].cells,
            prev[i].cells,
        )
    &&& rows.len() > 0 ==> !rows.last().wrapped
}

/// What the next row is turned from.
#[verifier::spinoff_prover]
proof fn lemma_next_row_starts(
    w: WrittenModel,
    c: CanvasModel,
    start: CanvasModel,
    rows: Seq<RowModel>,
    prev: Seq<RowModel>,
    n: int,
    size: Size,
)
    requires
        rows_turned(w, c, start, rows, prev, n, size),
        turnable_rows(rows, prev, start.pos, size.cols as int),
        rows.len() == size.rows,
        0 <= n < size.rows,
        size.cols > 0,
        start.joins ==> goes_apart(
            start.pos.col as int,
            rows[start.pos.row as int].cells,
            prev[start.pos.row as int].cells,
        ),
    ensures
        ({
            let above = if n > 0 { rows[n - 1].cells } else { Seq::empty() };
            &&& turns_row(c, above, rows[n].cells, prev[n].cells, n as u16, size, w.wrapping)
            &&& rows[n].wrapped != prev[n].wrapped ==> turns_wrapping(
                rows[n].cells,
                prev[n].cells,
                rows[n].wrapped,
            )
            &&& rows[n].wrapped ==> filled_end(rows[n].cells)
            &&& rows[n].wrapped && prev[n].wrapped ==> keeps_end(rows[n].cells, prev[n].cells)
            &&& c.wraps[n] == prev[n].wrapped
            &&& w.wrapping ==> c.wraps[n - 1] == w.prev_wrapping
            &&& w.wrapping && !c.wraps[n - 1] ==> c.pos == (Pos {
                row: (n - 1) as u16,
                col: size.cols,
            })
        }),
{
    assert(turnable_row(rows[n].cells, prev[n].cells, size.cols as int));
    assert(c.cells[n] == prev[n].cells);
    if n + 1 < rows.len() {
        assert(turnable_row(rows[n + 1].cells, prev[n + 1].cells, size.cols as int));
    } else {
        assert(rows.last() == rows[n]);
    }
    if n > 0 {
        assert(c.cells[n - 1] == rows[n - 1].cells);
        if c.pos == (Pos { row: (n - 1) as u16, col: size.cols }) {
            assert(waits_behind(rows, prev, n - 1, start.pos, size.cols as int));
        }
        assert(turnable_row(rows[n - 1].cells, prev[n - 1].cells, size.cols as int));
    }
}

/// The rows turned so far, with one more.
#[verifier::spinoff_prover]
proof fn lemma_next_row_ends(
    w: WrittenModel,
    c: CanvasModel,
    start: CanvasModel,
    rows: Seq<RowModel>,
    prev: Seq<RowModel>,
    n: int,
    size: Size,
    after: WrittenModel,
    d: CanvasModel,
)
    requires
        rows_turned(w, c, start, rows, prev, n, size),
        rows.len() == size.rows,
        0 <= n < size.rows,
        d == (CanvasModel {
            cells: c.cells.update(n, rows[n].cells),
            wraps: d.wraps,
            pos: after.pos,
            attrs: after.attrs,
            joins: d.joins,
            ..c
        }),
        after.wrapping == rows[n].wrapped,
        after.prev_wrapping == prev[n].wrapped,
        d.wraps.len() == size.rows,
        forall|i: int|
            0 <= i < size.rows && i != n && i != n - 1 ==> #[trigger] d.wraps[i] == c.wraps[i],
        n > 0 ==> d.wraps[n - 1] == w.wrapping,
        d.wraps[n] == (rows[n].wrapped && prev[n].wrapped),
        rows[n].wrapped && !prev[n].wrapped ==> after.pos == (Pos { row: n as u16, col: size.cols }),
        after.pos.row < size.rows,
        after.pos.col <= size.cols,
        d.joins && after.pos.row > n ==> c.joins && after.pos == c.pos,
        row_moved(after.pos, rows[n], prev[n], n as u16, size.cols as int) || after.pos == c.pos
            && same_row(rows[n], prev[n]),
    ensures
        rows_turned(after, d, start, rows, prev, n + 1, size),
{
    assert forall|i: int| 0 <= i < n + 1 implies #[trigger] d.cells[i] == rows[i].cells by {
        if i < n {
            assert(c.cells[i] == rows[i].cells);
        }
    }
    assert forall|i: int| 0 <= i < size.rows implies #[trigger] d.wraps[i] == (if i < n {
        rows[i].wrapped
    } else if i < n + 1 {
        rows[i].wrapped && prev[i].wrapped
    } else {
        prev[i].wrapped
    }) by {
        if i != n && i != n - 1 {
            assert(d.wraps[i] == c.wraps[i]);
        }
    }
    assert forall|i: int| n + 1 <= i < size.rows implies #[trigger] d.cells[i] == prev[i].cells by {
        assert(c.cells[i] == prev[i].cells);
    }
}

#[verifier::spinoff_prover]
proof fn lemma_rows_over(
    start: WrittenModel,
    c: CanvasModel,
    rows: Seq<RowModel>,
    prev: Seq<RowModel>,
    n: int,
    size: Size,
    origin: ScreenModel,
) -> (d: CanvasModel)
    requires
        draws(start.out, size, origin, c),
        rows_turned(start, c, c, rows, prev, 0, size),
        turnable_rows(rows, prev, c.pos, size.cols as int),
        rows.len() == size.rows,
        0 <= n <= size.rows,
        size.cols > 0,
        c.joins ==> goes_apart(
            c.pos.col as int,
            rows[c.pos.row as int].cells,
            prev[c.pos.row as int].cells,
        ),
    ensures
        ({
            let after = rows_diff(start, rows, prev, n, size.cols as int);
            &&& draws(after.out, size, origin, d)
            &&& rows_turned(after, d, c, rows, prev, n, size)
        }),
    decreases n,
{
    if n == 0 {
        c
    } else {
        let before = lemma_rows_over(start, c, rows, prev, n - 1, size, origin);
        let so_far = rows_diff(start, rows, prev, n - 1, size.cols as int);
        let above = if n > 1 { rows[n - 2].cells } else { Seq::empty() };
        lemma_next_row_starts(so_far, before, c, rows, prev, n - 1, size);
        let d = lemma_row_over(
            so_far.out,
            before,
            above,
            rows[n - 1],
            prev[n - 1],
            (n - 1) as u16,
            size,
            origin,
            so_far.wrapping,
            so_far.prev_wrapping,
        );
        let after = rows_diff(start, rows, prev, n, size.cols as int);
        lemma_next_row_ends(so_far, before, c, rows, prev, n - 1, size, after, d);
        d
    }
}

/// Whether what ends a row does not join what is before it.
pub open spec fn ends_apart(cells: Seq<CellModel>) -> bool {
    let col = last_glyph_col(cells);
    col > 0 ==> !joinable(cells[owner_col(cells, col - 1)], cells[col].text[0])
}

/// Whether a cursor that waits behind a row can be put there from anywhere.
pub open spec fn cursor_turnable(grid: GridModel) -> bool {
    let cells = grid.current_row().cells;
    grid.pos.col >= grid.size.cols ==> {
        &&& grid.scrollback_offset == 0
        &&& if filled_end(cells) {
            ends_apart(cells)
        } else {
            match filled_row_above(grid.rows, grid.pos.row as int) {
                Some(i) => ends_apart(grid.rows[i].cells),
                None => grid.size.cols < 2 || !joinable(
                    cells[owner_col(cells, grid.size.cols - 2)],
                    ' ',
                ),
            }
        }
    }
}

/// What ends a row drawn again, from wherever the cursor is.
#[verifier::spinoff_prover]
proof fn lemma_redrawn_over(out: Seq<u8>, size: Size, origin: ScreenModel, c: CanvasModel, row: u16)
    requires
        draws(out, size, origin, c),
        row < size.rows,
        c.pos.row < size.rows,
        c.pos.col <= size.cols,
        c.cells.len() == size.rows,
        c.wraps.len() == size.rows,
        size.cols > 0,
        typable_row(c.cells[row as int], size.cols as int),
        filled_end(c.cells[row as int]),
        ends_apart(c.cells[row as int]),
    ensures
        ({
            let cells = c.cells[row as int];
            let to = Pos { row, col: last_glyph_col(cells) as u16 };
            draws(
                redrawn(out, Some(c.pos), to, cells[last_glyph_col(cells)], c.attrs),
                size,
                origin,
                CanvasModel { pos: Pos { row, col: size.cols }, joins: true, ..c },
            )
        }),
{
    let cells = c.cells[row as int];
    let cols = size.cols as int;
    let col = last_glyph_col(cells);
    let to = Pos { row, col: col as u16 };
    let cell = cells[col];
    lemma_end_cell(cells);
    assert(retypes(cells[col], col, cols));
    lemma_move_from_to(out, size, origin, c, to);
    let moved = CanvasModel { pos: to, joins: c.joins && to == c.pos, ..c };
    let out1 = out + goto(Some(c.pos), to);
    lemma_recolor(out1, size, origin, moved, cell.attrs);
    let colored = CanvasModel { attrs: cell.attrs, ..moved };
    let out2 = out1 + attrs_diff(cell.attrs, c.attrs);
    let n = cell.text.len() as int;
    assert(cell.text.take(n) =~= cell.text);
    assert(typeable_over(colored, to, cell, size));
    lemma_type_over(out2, size, origin, colored, to, cell, n);
    let typed = typed_over(colored, to, cell, n);
    let out3 = out2 + encode_utf8(cell.text);
    let last = col + 1 == cols;
    if !cell.wide && was_wide(cell.text, n, last) {
        let k = choose|k: int| 1 <= k < n && #[trigger] wide_after(cell.text, k, last);
        lemma_narrow_in_last_column(cell.text, k);
    }
    lemma_typed_again(cells, cell, col, cols);
    assert(typed.cells =~= c.cells);
    assert(typed.wraps =~= c.wraps);
    lemma_recolor(out3, size, origin, typed, c.attrs);
}

/// The cursor put in its place, from wherever it is.
#[verifier::spinoff_prover]
proof fn lemma_cursor_over(
    out: Seq<u8>,
    c: CanvasModel,
    grid: GridModel,
    origin: ScreenModel,
) -> (d: CanvasModel)
    requires
        draws(out, grid.size, origin, c),
        grid.wf(),
        grid.allocated(),
        c.cells.len() == grid.size.rows,
        c.wraps.len() == grid.size.rows,
        forall|i: int|
            0 <= i < grid.size.rows ==> (#[trigger] c.wraps[i] ==> filled_end(c.cells[i])),
        c.pos.row < grid.size.rows,
        c.pos.col <= grid.size.cols,
        forall|i: int|
            0 <= i < grid.size.rows ==> #[trigger] c.cells[i] == grid.visible()[i].cells,
        forall|i: int|
            0 <= i < grid.size.rows ==> typable_row(#[trigger] c.cells[i], grid.size.cols as int),
        cursor_turnable(grid),
    ensures
        draws(grid.cursor_formatted(out, Some(c.pos), Some(c.attrs)), grid.size, origin, d),
        d.cells == c.cells,
        d.wraps == c.wraps,
        d.pos == grid.pos,
        d.attrs == c.attrs,
        d.hidden == c.hidden,
{
    let size = grid.size;
    let cols = size.cols as int;
    if c.pos != grid.pos && grid.pos.col >= cols {
        assert(grid.visible() =~= grid.rows);
        let row = grid.pos.row;
        let cells = grid.rows[row as int].cells;
        assert(c.cells[row as int] == cells);
        if filled_end(cells) {
            lemma_redrawn_over(out, size, origin, c, row);
            CanvasModel { pos: grid.pos, joins: true, ..c }
        } else {
            lemma_filled_row_above(grid.rows, row as int);
            match filled_row_above(grid.rows, row as int) {
                Some(i) => {
                    assert(c.cells[i] == grid.rows[i].cells);
                    let above = grid.rows[i];
                    let waiting = c.pos.row == i && c.pos.col >= cols;
                    let behind = Pos { row: i as u16, col: size.cols };
                    let to = Pos { row: i as u16, col: last_glyph_col(above.cells) as u16 };
                    let out1 = if waiting {
                        out
                    } else {
                        redrawn(out, Some(c.pos), to, end_cell(above), c.attrs)
                    };
                    let there = if waiting { c } else { CanvasModel { pos: behind, joins: true, ..c } };
                    if !waiting {
                        lemma_redrawn_over(out, size, origin, c, i as u16);
                    }
                    lemma_line_feeds(out1, size, origin, there, row - i);
                    CanvasModel { pos: grid.pos, joins: false, ..there }
                },
                None => {
                    lemma_blank_end(out, size, origin, c, row);
                    CanvasModel {
                        pos: grid.pos,
                        joins: false,
                        saved_pos: grid.pos,
                        saved_attrs: cells[cols - 1].attrs,
                        saved_origin: false,
                        ..c
                    }
                },
            }
        }
    } else if c.pos == grid.pos {
        assert(out + goto(Some(c.pos), grid.pos) =~= out);
        c
    } else {
        lemma_move_from_to(out, size, origin, c, grid.pos);
        CanvasModel { pos: grid.pos, joins: false, ..c }
    }
}

/// Which rows wrap once all of them are turned.
proof fn lemma_turned_wraps(
    w: WrittenModel,
    c: CanvasModel,
    start: CanvasModel,
    rows: Seq<RowModel>,
    prev: Seq<RowModel>,
    size: Size,
)
    requires
        rows_turned(w, c, start, rows, prev, size.rows as int, size),
        turnable_rows(rows, prev, start.pos, size.cols as int),
        rows.len() == size.rows,
    ensures
        forall|i: int| 0 <= i < size.rows ==> #[trigger] c.wraps[i] == rows[i].wrapped,
        forall|i: int| 0 <= i < size.rows ==> (#[trigger] c.wraps[i] ==> filled_end(c.cells[i])),
{
    assert forall|i: int| 0 <= i < size.rows implies #[trigger] c.wraps[i] == rows[i].wrapped && (
    c.wraps[i] ==> filled_end(c.cells[i])) by {
        assert(c.cells[i] == rows[i].cells);
        if i + 1 < size.rows {
            assert(turnable_row(rows[i + 1].cells, prev[i + 1].cells, size.cols as int));
        } else {
            assert(rows.last() == rows[i]);
        }
    }
}

/// Whether the difference between two screens can be drawn: nothing on the main screen
/// that is shown limits the cursor, and what is drawn becomes what it is to be, wherever
/// the cursor comes from.
pub open spec fn turnable(screen: ScreenModel, prev: ScreenModel) -> bool {
    let grid = screen.active();
    let rows = grid.visible();
    let shown = prev.active().visible();
    &&& framed(prev, grid.size)
    &&& turnable_rows(rows, shown, prev.active().pos, grid.size.cols as int)
    &&& cursor_turnable(grid)
    &&& prev.joins ==> goes_apart(
        prev.active().pos.col as int,
        rows[prev.active().pos.row as int].cells,
        shown[prev.active().pos.row as int].cells,
    )
}

/// The cursor shown or hidden before anything else is drawn.
proof fn lemma_turning_start(screen: ScreenModel, prev: ScreenModel) -> (shown: CanvasModel)
    requires
        screen.wf(),
        turnable(screen, prev),
    ensures
        ({
            let out = if screen.modes.hide_cursor == prev.modes.hide_cursor {
                Seq::<u8>::empty()
            } else {
                Seq::<u8>::empty() + screen.cursor_visibility()
            };
            let start = WrittenModel {
                out,
                pos: prev.active().pos,
                attrs: prev.attrs,
                wrapping: false,
                prev_wrapping: false,
            };
            &&& draws(out, screen.size(), prev, shown)
            &&& rows_turned(
                start,
                shown,
                shown,
                screen.active().visible(),
                prev.active().visible(),
                0,
                screen.size(),
            )
        }),
        shown.hidden == screen.modes.hide_cursor,
        shown.joins ==> prev.joins,
{
    let size = screen.size();
    let prev_rows = prev.active().visible();
    let none = Seq::<u8>::empty();
    let before = canvas(prev);
    lemma_start(size, prev);
    let hides = screen.modes.hide_cursor != prev.modes.hide_cursor;
    let shown = if hides {
        CanvasModel { joins: false, hidden: screen.modes.hide_cursor, ..before }
    } else {
        before
    };
    if hides {
        lemma_cursor_code(none, size, prev, before, screen.modes.hide_cursor);
    }
    assert forall|i: int| 0 <= i < size.rows implies #[trigger] shown.cells[i]
        == prev_rows[i].cells by {
        assert(canvas(prev).cells[i] == prev.grid.rows[i].cells);
    }
    assert forall|i: int| 0 <= i < size.rows implies #[trigger] shown.wraps[i]
        == prev_rows[i].wrapped by {
        assert(canvas(prev).wraps[i] == prev.grid.rows[i].wrapped);
    }
    shown
}

/// The rows and the cursor of a screen, drawn over those of another one.
#[verifier::spinoff_prover]
proof fn lemma_turned_screen(
    start: WrittenModel,
    shown: CanvasModel,
    grid: GridModel,
    prev_rows: Seq<RowModel>,
    origin: ScreenModel,
    attrs: AttrsModel,
) -> (last: CanvasModel)
    requires
        draws(start.out, grid.size, origin, shown),
        rows_turned(start, shown, shown, grid.visible(), prev_rows, 0, grid.size),
        turnable_rows(grid.visible(), prev_rows, shown.pos, grid.size.cols as int),
        shown.joins ==> goes_apart(
            shown.pos.col as int,
            grid.visible()[shown.pos.row as int].cells,
            prev_rows[shown.pos.row as int].cells,
        ),
        grid.wf(),
        grid.allocated(),
        cursor_turnable(grid),
    ensures
        ({
            let rows = grid.visible();
            let written = rows_diff(start, rows, prev_rows, rows.len() as int, grid.size.cols as int);
            let out = grid.cursor_formatted(written.out, Some(written.pos), Some(written.attrs));
            draws(out + attrs_diff(attrs, written.attrs), grid.size, origin, last)
        }),
        forall|i: int| 0 <= i < grid.size.rows ==> #[trigger] last.cells[i] == grid.visible()[i].cells,
        forall|i: int|
            0 <= i < grid.size.rows ==> #[trigger] last.wraps[i] == grid.visible()[i].wrapped,
        last.pos == grid.pos,
        last.attrs == attrs,
        last.hidden == shown.hidden,
{
    let size = grid.size;
    let rows = grid.visible();
    let turned = lemma_rows_over(start, shown, rows, prev_rows, rows.len() as int, size, origin);
    let written = rows_diff(start, rows, prev_rows, rows.len() as int, size.cols as int);
    assert forall|i: int| 0 <= i < size.rows implies typable_row(
        #[trigger] turned.cells[i],
        size.cols as int,
    ) by {
        assert(turnable_row(rows[i].cells, prev_rows[i].cells, size.cols as int));
    }
    lemma_turned_wraps(written, turned, shown, rows, prev_rows, size);
    let placed = lemma_cursor_over(written.out, turned, grid, origin);
    let out = grid.cursor_formatted(written.out, Some(written.pos), Some(written.attrs));
    lemma_recolor(out, size, origin, placed, attrs);
    CanvasModel { attrs, ..placed }
}

/// What is written out for the difference between two screens turns the one into the
/// other: the cells, which rows wrap, the cursor, the attributes of what is drawn next,
/// and whether the cursor is hidden.
pub proof fn law_differences_turn_screens(screen: ScreenModel, prev: ScreenModel) -> (codes: Seq<
    CodeModel,
>)
    requires
        screen.wf(),
        turnable(screen, prev),
    ensures
        codes_bytes(codes) == screen.diff_bytes(Seq::empty(), prev),
        shows_the_same(replayed(prev, codes), screen),
{
    let grid = screen.active();
    let shown = lemma_turning_start(screen, prev);
    let start = WrittenModel {
        out: if screen.modes.hide_cursor == prev.modes.hide_cursor {
            Seq::<u8>::empty()
        } else {
            Seq::<u8>::empty() + screen.cursor_visibility()
        },
        pos: prev.active().pos,
        attrs: prev.attrs,
        wrapping: false,
        prev_wrapping: false,
    };
    let last = lemma_turned_screen(
        start,
        shown,
        grid,
        prev.active().visible(),
        prev,
        screen.attrs,
    );
    let out = screen.diff_bytes(Seq::empty(), prev);
    assert(draws(out, grid.size, prev, last));
    let codes = choose|codes: Seq<CodeModel>| drawn_by(codes, out, grid.size, prev, last);
    lemma_shown_rows(replayed(prev, codes), last, screen);
    codes
}

/// A difference depends on what the earlier screen shows alone.
proof fn lemma_same_difference(screen: ScreenModel, prev: ScreenModel, again: ScreenModel)
    requires
        prev.wf(),
        shows_the_same(again, prev),
    ensures
        screen.diff_bytes(Seq::empty(), again) == screen.diff_bytes(Seq::empty(), prev),
{
    let rows = screen.active().visible();
    let n = min_int(rows.len() as int, prev.active().visible().len() as int);
    let out = if screen.modes.hide_cursor == prev.modes.hide_cursor {
        Seq::<u8>::empty()
    } else {
        Seq::<u8>::empty() + screen.cursor_visibility()
    };
    let start = WrittenModel {
        out,
        pos: prev.active().pos,
        attrs: prev.attrs,
        wrapping: false,
        prev_wrapping: false,
    };
    lemma_same_rows_diff(
        start,
        rows,
        prev.active().visible(),
        again.active().visible(),
        n,
        screen.active().size.cols as int,
    );
}

proof fn lemma_same_rows_diff(
    start: WrittenModel,
    rows: Seq<RowModel>,
    prev: Seq<RowModel>,
    again: Seq<RowModel>,
    n: int,
    cols: int,
)
    requires
        again.len() == prev.len(),
        n <= prev.len(),
        forall|i: int|
            0 <= i < prev.len() ==> (#[trigger] again[i]).cells == prev[i].cells && again[i].wrapped
                == prev[i].wrapped,
    ensures
        rows_diff(start, rows, again, n, cols) == rows_diff(start, rows, prev, n, cols),
    decreases n,
{
    if n > 0 {
        lemma_same_rows_diff(start, rows, prev, again, n - 1, cols);
        assert(again[n - 1].cells == prev[n - 1].cells);
    }
}

/// What is written out for a screen, and then for the difference to another one, draws on
/// a new screen what is written out for the other one alone.
pub proof fn law_differences_follow_screens(
    screen: ScreenModel,
    prev: ScreenModel,
    scrollback_len: usize,
) -> (codes: (Seq<CodeModel>, Seq<CodeModel>))
    requires
        screen.wf(),
        prev.wf(),
        screen.size() == prev.size(),
        redrawable(prev),
        turnable_rows(
            screen.active().visible(),
            prev.active().visible(),
            prev.active().pos,
            screen.size().cols as int,
        ),
        cursor_turnable(screen.active()),
        goes_apart(
            prev.active().pos.col as int,
            screen.active().visible()[prev.active().pos.row as int].cells,
            prev.active().visible()[prev.active().pos.row as int].cells,
        ),
    ensures
        codes_bytes(codes.0) == prev.contents_bytes(Seq::empty()),
        codes_bytes(codes.1) == screen.diff_bytes(Seq::empty(), prev),
        shows_the_same(
            replayed(replayed(ScreenModel::fresh(prev.size(), scrollback_len), codes.0), codes.1),
            screen,
        ),
{
    let first = law_written_screens_draw_themselves(prev, scrollback_len);
    let again = replayed(ScreenModel::fresh(prev.size(), scrollback_len), first);
    lemma_same_difference(screen, prev, again);
    lemma_turnable_again(
        screen.active().visible(),
        prev.active().visible(),
        again.active().visible(),
        prev.active().pos,
        screen.size().cols as int,
    );
    let second = law_differences_turn_screens(screen, again);
    (first, second)
}

proof fn lemma_turnable_again(
    rows: Seq<RowModel>,
    prev: Seq<RowModel>,
    again: Seq<RowModel>,
    pos: Pos,
    cols: int,
)
    requires
        turnable_rows(rows, prev, pos, cols),
        again.len() == prev.len(),
        forall|i: int|
            0 <= i < prev.len() ==> (#[trigger] again[i]).cells == prev[i].cells && again[i].wrapped
                == prev[i].wrapped,
    ensures
        turnable_rows(rows, again, pos, cols),
{
    assert forall|i: int| 0 <= i < rows.len() implies turnable_row(
        #[trigger] rows[i].cells,
        again[i].cells,
        cols,
    ) by {
        assert(again[i].cells == prev[i].cells);
    }
    assert forall|i: int| 0 < i < rows.len() && rows[i - 1].wrapped implies turns_from_above(
        rows[i - 1].cells,
        #[trigger] rows[i].cells,
        again[i].cells,
        !again[i - 1].wrapped,
        waits_behind(rows, again, i - 1, pos, cols),
    ) by {
        assert(again[i].cells == prev[i].cells);
        assert(again[i - 1].wrapped == prev[i - 1].wrapped);
        assert(again[i - 1].cells == prev[i - 1].cells);
        if waits_behind(rows, again, i - 1, pos, cols) {
            assert forall|k: int| 0 <= k <= i - 1 && same_row(rows[k], again[k]) implies same_row(
                #[trigger] rows[k],
                prev[k],
            ) by {
                assert(again[k].cells == prev[k].cells);
            }
            assert(waits_behind(rows, prev, i - 1, pos, cols));
        }
    }
    assert forall|i: int|
        0 <= i < rows.len() && (#[trigger] rows[i]).wrapped != again[i].wrapped implies turns_wrapping(
        rows[i].cells,
        again[i].cells,
        rows[i].wrapped,
    ) by {
        assert(again[i].cells == prev[i].cells);
    }
    assert forall|i: int|
        0 <= i < rows.len() && (#[trigger] rows[i]).wrapped && again[i].wrapped implies keeps_end(
        rows[i].cells,
        again[i].cells,
    ) by {
        assert(again[i].cells == prev[i].cells);
    }
}

} // verus!
