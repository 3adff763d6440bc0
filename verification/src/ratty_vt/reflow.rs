//! Wrapping logical lines anew at another width.

use crate::ratty_vt::cell::{Cell, CellModel};
use crate::ratty_vt::grid_model::{
    any_placeholder, blanks_trimmed, chunked, cursor_in_line, flattened, line_cursor, line_rows,
    reflow_line, ChunkModel, ReflowModel,
};
use crate::ratty_vt::row::{cells_view, rows_view, Row};
use vstd::prelude::*;

verus! {

/// Rows of cells, as what they show.
pub open spec fn chunks_view(chunks: Seq<Vec<Cell>>) -> Seq<Seq<CellModel>> {
    Seq::new(chunks.len(), |k: int| cells_view(chunks[k]@))
}

pub open spec fn offset_view(offset: Option<u128>) -> Option<int> {
    match offset {
        Some(offset) => Some(offset as int),
        None => None,
    }
}

pub open spec fn cursor_view(cursor: Option<(usize, u16)>) -> Option<(int, int)> {
    match cursor {
        Some((row, col)) => Some((row as int, col as int)),
        None => None,
    }
}

/// The cells of the rows `start..=end`, without the blank ones at the end; how
/// far into them the cursor is; and whether a placeholder may be among them.
pub fn flatten_line(
    all: &Vec<Row>,
    start: usize,
    end: usize,
    cursor_row: usize,
    cursor_col: u16,
) -> (r: (Vec<Cell>, Option<u128>, bool))
    requires
        start <= end < all.len(),
    ensures
        cells_view(r.0@) == blanks_trimmed(flattened(rows_view(all@), start as int, end + 1)),
        offset_view(r.1) == cursor_in_line(
            rows_view(all@),
            start as int,
            end as int,
            cursor_row as int,
            cursor_col as int,
        ),
        r.2 == any_placeholder(rows_view(all@), start as int, end + 1),
{
    let ghost model = rows_view(all@);
    let mut cells: Vec<Cell> = Vec::new();
    let mut offset: Option<u128> = None;
    let mut placeholder = false;
    let mut abs: usize = start;
    assert(cells_view(cells@) =~= Seq::<CellModel>::empty());
    while abs <= end
        invariant
            start <= abs <= end + 1,
            end < all.len(),
            model == rows_view(all@),
            cells_view(cells@) == flattened(model, start as int, abs as int),
            placeholder == any_placeholder(model, start as int, abs as int),
            offset_view(offset) == (if start <= cursor_row < abs {
                Some(flattened(model, start as int, cursor_row as int).len() + cursor_col as int)
            } else {
                None
            }),
        decreases end + 1 - abs,
    {
        let row = &all[abs];
        if abs == cursor_row {
            offset = Some(cells.len() as u128 + cursor_col as u128);
            assert(cells@.len() == cells_view(cells@).len());
        }
        if row.has_kitty_placeholder() {
            placeholder = true;
        }
        let ghost before = cells_view(cells@);
        let row_cells = row.cells();
        let mut i: usize = 0;
        assert(before =~= before + cells_view(row_cells@).take(0));
        while i < row_cells.len()
            invariant
                i <= row_cells.len(),
                cells_view(cells@) == before + cells_view(row_cells@).take(i as int),
            decreases row_cells.len() - i,
        {
            let ghost so_far = cells_view(cells@);
            cells.push(row_cells[i].clone());
            proof {
                let own = cells_view(row_cells@);
                assert(cells_view(cells@) =~= so_far.push(own[i as int]));
                assert(own.take(i + 1) =~= own.take(i as int).push(own[i as int]));
                assert(cells_view(cells@) =~= before + own.take(i + 1));
            }
            i = i + 1;
        }
        assert(cells_view(row_cells@).take(i as int) =~= model[abs as int].cells);
        abs = abs + 1;
    }
    let ghost whole = cells_view(cells@);
    let blank = Cell::new();
    loop
        invariant
            blank@ == CellModel::blank(),
            blanks_trimmed(cells_view(cells@)) == blanks_trimmed(whole),
        ensures
            cells_view(cells@) == blanks_trimmed(whole),
        decreases cells.len(),
    {
        let len: usize = cells.len();
        if len == 0 {
            break;
        }
        assert(cells_view(cells@).last() == cells@[len - 1]@);
        if !cells[len - 1].same(&blank) {
            break;
        }
        let ghost before = cells_view(cells@);
        let _ = cells.pop();
        assert(cells_view(cells@) =~= before.drop_last());
    }
    (cells, offset, placeholder)
}

/// Cuts a line into rows without splitting wide characters. Also says where the
/// cell at `offset` went.
pub fn chunk_line(cells: &Vec<Cell>, width: u16, offset: Option<u128>) -> (r: (
    Vec<Vec<Cell>>,
    Option<(usize, u16)>,
))
    requires
        width > 0,
    ensures
        (ChunkModel { rows: chunks_view(r.0@), cursor: cursor_view(r.1) }) == chunked(
            cells_view(cells@),
            cells@.len() as int,
            width as int,
            offset_view(offset),
        ),
        r.0@.len() > 0,
        forall|k: int| 0 <= k < r.0@.len() ==> (#[trigger] r.0@[k])@.len() <= width,
{
    let ghost model = cells_view(cells@);
    let mut rows: Vec<Vec<Cell>> = Vec::new();
    rows.push(Vec::new());
    let mut cursor: Option<(usize, u16)> = None;
    let mut n: usize = 0;
    proof {
        assert(chunks_view(rows@)[0] =~= Seq::<CellModel>::empty());
        assert(chunks_view(rows@) =~= seq![Seq::<CellModel>::empty()]);
    }
    while n < cells.len()
        invariant
            n <= cells.len(),
            width > 0,
            model == cells_view(cells@),
            rows@.len() > 0,
            forall|k: int| 0 <= k < rows@.len() ==> (#[trigger] rows@[k])@.len() <= width,
            (ChunkModel { rows: chunks_view(rows@), cursor: cursor_view(cursor) }) == chunked(
                model,
                n as int,
                width as int,
                offset_view(offset),
            ),
        decreases cells.len() - n,
    {
        let cell = &cells[n];
        assert(model[n as int] == cell@);
        let ghost before = chunked(model, n as int, width as int, offset_view(offset));
        if width < 2 && (cell.is_wide() || cell.is_wide_continuation()) {
            // A wide character cannot exist in a single column.
            n = n + 1;
            continue;
        }
        let mut at: usize = rows.len() - 1;
        let len: usize = rows[at].len();
        assert(before.rows.last() == cells_view(rows@[at as int]@));
        if len >= width as usize {
            rows.push(Vec::new());
            at = at + 1;
            assert(chunks_view(rows@)[at as int] =~= Seq::<CellModel>::empty());
            assert(chunks_view(rows@) =~= before.rows.push(Seq::empty()));
        } else if cell.is_wide() && len == width as usize - 1 {
            let ghost last = cells_view(rows@[at as int]@);
            rows[at].push(Cell::new());
            assert(cells_view(rows@[at as int]@) =~= last.push(CellModel::blank()));
            assert(chunks_view(rows@) =~= before.rows.update(at as int, last.push(CellModel::blank())));
            rows.push(Vec::new());
            at = at + 1;
            assert(chunks_view(rows@)[at as int] =~= Seq::<CellModel>::empty());
            assert(chunks_view(rows@) =~= before.room_for(cell@, width as int));
        }
        let ghost ready = chunks_view(rows@);
        assert(ready == before.room_for(cell@, width as int));
        let under_cursor = match offset {
            Some(offset) => offset == n as u128,
            None => false,
        };
        if under_cursor {
            cursor = Some((at, rows[at].len() as u16));
        }
        let ghost last = cells_view(rows@[at as int]@);
        rows[at].push(cell.clone());
        assert(cells_view(rows@[at as int]@) =~= last.push(cell@));
        assert(chunks_view(rows@) =~= ready.update(at as int, last.push(cell@)));
        n = n + 1;
    }
    (rows, cursor)
}

/// Where the cursor ends up in a line.
pub fn place_cursor(
    chunks: &Vec<Vec<Cell>>,
    found: Option<(usize, u16)>,
    offset: Option<u128>,
    content_len: usize,
    width: u16,
) -> (r: Option<(usize, u16)>)
    requires
        chunks@.len() > 0,
        found is Some ==> offset is Some,
    ensures
        cursor_view(r) == line_cursor(
            ChunkModel { rows: chunks_view(chunks@), cursor: cursor_view(found) },
            offset_view(offset),
            content_len as int,
            width as int,
        ),
{
    match offset {
        None => None,
        Some(offset) => {
            if found.is_some() {
                return found;
            }
            let last: usize = chunks.len() - 1;
            let beyond: u128 = if offset > content_len as u128 {
                offset - content_len as u128
            } else {
                0
            };
            let len: u128 = chunks[last].len() as u128;
            assert(len == chunks_view(chunks@)[last as int].len());
            let col: u16 = if beyond >= width as u128 || len + beyond >= width as u128 {
                width
            } else {
                (len + beyond) as u16
            };
            Some((last, col))
        },
    }
}

/// Adds the rows of a line: filled up with blank cells, all but the last
/// wrapped.
pub fn push_line(chunks: Vec<Vec<Cell>>, width: u16, placeholder: bool, out: &mut Vec<Row>)
    requires
        forall|k: int| 0 <= k < chunks@.len() ==> (#[trigger] chunks@[k])@.len() <= width,
    ensures
        rows_view(final(out)@) == rows_view(old(out)@) + line_rows(
            chunks_view(chunks@),
            width as int,
            placeholder,
        ),
{
    let ghost before = rows_view(out@);
    let ghost model = chunks_view(chunks@);
    let ghost lines = line_rows(model, width as int, placeholder);
    let mut chunks = chunks;
    let count: usize = chunks.len();
    let mut k: usize = 0;
    assert(rows_view(out@) =~= before + lines.take(0));
    while k < count
        invariant
            k <= count,
            count == chunks@.len(),
            model.len() == count,
            lines == line_rows(model, width as int, placeholder),
            forall|j: int|
                k <= j < count ==> cells_view((#[trigger] chunks@[j])@) == model[j] && model[j].len() <= width,
            rows_view(out@) == before + lines.take(k as int),
        decreases count - k,
    {
        let mut cells: Vec<Cell> = Vec::new();
        let ghost rest = chunks@;
        core::mem::swap(&mut chunks[k], &mut cells);
        assert forall|j: int| k < j < count implies #[trigger] chunks@[j] == rest[j] by {}
        let ghost own = cells_view(cells@);
        assert(own == model[k as int]);
        while cells.len() < width as usize
            invariant
                own.len() <= cells@.len() <= width,
                forall|i: int|
                    0 <= i < cells@.len() ==> (#[trigger] cells@[i])@ == if i < own.len() {
                        own[i]
                    } else {
                        CellModel::blank()
                    },
            decreases width - cells.len(),
        {
            cells.push(Cell::new());
        }
        assert(cells_view(cells@) =~= lines[k as int].cells);
        let mut row = Row::from_cells(cells, k + 1 < count);
        if placeholder {
            row.mark_kitty_placeholder();
        }
        assert(row@ == lines[k as int]);
        let ghost rows = rows_view(out@);
        out.push(row);
        assert(rows_view(out@) =~= rows.push(lines[k as int]));
        assert(lines.take(k + 1) =~= lines.take(k as int).push(lines[k as int]));
        k = k + 1;
    }
    assert(lines.take(k as int) =~= lines);
}

/// Wraps one logical line, from row `start` to row `end`, anew.
pub fn wrap_line(
    all: &Vec<Row>,
    start: usize,
    end: usize,
    cursor_row: usize,
    cursor_col: u16,
    width: u16,
    out: &mut Vec<Row>,
    cursor: Option<(usize, u16)>,
) -> (r: Option<(usize, u16)>)
    requires
        start <= end < all.len(),
        width > 0,
    ensures
        (ReflowModel { out: rows_view(final(out)@), cursor: cursor_view(r) }) == reflow_line(
            rows_view(all@),
            start as int,
            end as int,
            cursor_row as int,
            cursor_col as int,
            width as int,
            ReflowModel { out: rows_view(old(out)@), cursor: cursor_view(cursor) },
        ),
{
    let (cells, offset, placeholder) = flatten_line(all, start, end, cursor_row, cursor_col);
    assert(cells@.len() == cells_view(cells@).len());
    let (chunks, found) = chunk_line(&cells, width, offset);
    proof {
        lemma_found(cells_view(cells@), cells@.len() as int, width as int, offset_view(offset));
    }
    let placed = place_cursor(&chunks, found, offset, cells.len(), width);
    let first: usize = out.len();
    let ghost before = rows_view(out@);
    proof {
        crate::ratty_vt::grid_model::lemma_chunked(
            cells_view(cells@),
            cells@.len() as int,
            width as int,
            offset_view(offset),
        );
    }
    let ghost count = chunks@.len();
    assert(count == chunks_view(chunks@).len());
    assert(placed matches Some((row, _)) ==> row < count);
    push_line(chunks, width, placeholder, out);
    let total: usize = out.len();
    assert(total == rows_view(out@).len());
    assert(total == first + count);
    match placed {
        Some((row, col)) => Some((first + row, col)),
        None => cursor,
    }
}

/// A cell is found under the cursor only where the cursor is in the line.
proof fn lemma_found(cells: Seq<CellModel>, n: int, width: int, offset: Option<int>)
    requires
        0 <= n <= cells.len(),
    ensures
        chunked(cells, n, width, offset).cursor is Some ==> offset is Some,
    decreases n,
{
    if n > 0 {
        lemma_found(cells, n - 1, width, offset);
    }
}

} // verus!
