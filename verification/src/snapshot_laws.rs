//! What a snapshot tells of the cells of a screen.

use crate::ratty_vt::attrs::{AttrsModel, Blink, Color, Intensity};
use crate::ratty_vt::cell::CellModel;
use crate::ratty_vt::row::RowModel;
use crate::ratty_vt::screen_laws::attrs_are_default;
use crate::ratty_vt::screen_model::ScreenModel;
use crate::ratty_vt::{MouseProtocolEncoding, MouseProtocolMode};
use crate::snapshot::{
    cells_observed, clipped, content_viewed, describes, index_of, is_printable, number_text,
    plain_text, requested_span, row_clipped, rows_observed, run_added, runs_clipped, saturated,
    shows_state, style_entered, style_position, ObservedModel, RowViewModel, RunModel,
    ScreenSnapshot, SnapshotRect, SnapshotStyle,
};
use vstd::prelude::*;

verus! {

/// What a cell is told as: a space where it shows nothing or stands for an image.
pub open spec fn told_text(cell: CellModel) -> Seq<char> {
    if cell.text.len() == 0 || cell.text[0] == '\u{10EEEE}' {
        seq![' ']
    } else {
        cell.text
    }
}

/// Whether a cell is told of: it is no second half, it has text of its own or a style that
/// can be seen, and a part of it lies in the columns asked for.
pub open spec fn is_told(cell: CellModel, x: int, from: int, to: int) -> bool {
    &&& !cell.continuation
    &&& x < to
    &&& x + (if cell.wide { 2int } else { 1int }) > from
    &&& !attrs_are_default(cell.attrs) || (cell.text.len() > 0 && cell.text[0] != '\u{10EEEE}')
}

/// Whether a run tells of a cell: with its style and its text, at its column.
pub open spec fn tells(run: RunModel, styles: Seq<AttrsModel>, cell: CellModel, x: int) -> bool {
    &&& run.column <= x < run.column + run.columns
    &&& run.style < styles.len()
    &&& styles[run.style as int] == cell.attrs
    &&& if run.column == x && run.text == told_text(cell) {
        run.columns == (if cell.wide { 2int } else { 1int })
    } else {
        &&& !cell.wide
        &&& told_text(cell).len() == 1
        &&& run.text.len() == run.columns
        &&& run.text[x - run.column] == told_text(cell)[0]
    }
}

/// Whether some run tells of a cell.
pub open spec fn some_run_tells(
    runs: Seq<RunModel>,
    styles: Seq<AttrsModel>,
    cell: CellModel,
    x: int,
) -> bool {
    exists|k: int| 0 <= k < runs.len() && #[trigger] tells(runs[k], styles, cell, x)
}

/// Whether printable ASCII stands in narrow cells of its own, as it does where it was
/// typed.
pub open spec fn one_each(cells: Seq<CellModel>) -> bool {
    forall|i: int|
        0 <= i < cells.len() ==> {
            &&& (#[trigger] cells[i]).text.len() > 1 ==> !is_printable(cells[i].text)
            &&& cells[i].wide ==> !is_printable(told_text(cells[i]))
        }
}

/// Whether runs tell of the first `n` cells of a row, and of nothing else, from left to
/// right.
#[verifier::opaque]
spec fn told_so_far(
    cells: Seq<CellModel>,
    n: int,
    from: int,
    to: int,
    before: Seq<AttrsModel>,
    o: ObservedModel,
) -> bool {
    &&& before.len() <= o.styles.len() <= before.len() + n
    &&& o.styles.take(before.len() as int) == before
    &&& forall|x: int|
        0 <= x < n && is_told(#[trigger] cells[x], x, from, to) ==> some_run_tells(
            o.runs,
            o.styles,
            cells[x],
            x,
        )
    &&& forall|k: int| 0 <= k < o.runs.len() ==> run_is_made(#[trigger] o.runs[k], cells, n, from, to)
}

/// Whether a run starts on a cell that is told of; printable ASCII takes a column for each
/// character, and each of its cells is told of.
spec fn run_is_made(run: RunModel, cells: Seq<CellModel>, n: int, from: int, to: int) -> bool {
    &&& run.column < n
    &&& run.columns >= 1
    &&& is_told(cells[run.column as int], run.column as int, from, to)
    &&& is_printable(run.text) ==> {
        &&& run.columns == run.text.len()
        &&& run.column + run.columns <= n
        &&& forall|x: int|
            run.column <= x < run.column + run.columns ==> is_told(#[trigger] cells[x], x, from, to)
    }
}

proof fn lemma_style_position(styles: Seq<AttrsModel>, attrs: AttrsModel, i: int)
    requires
        0 <= i,
    ensures
        style_position(styles, attrs, i) matches Some(k) ==> i <= k < styles.len() && styles[k]
            == attrs,
    decreases styles.len() - i,
{
    if i < styles.len() && styles[i] != attrs {
        lemma_style_position(styles, attrs, i + 1);
    }
}

proof fn lemma_style_entered(styles: Seq<AttrsModel>, attrs: AttrsModel)
    requires
        styles.len() < u32::MAX,
    ensures
        ({
            let (after, k) = style_entered(styles, attrs);
            &&& styles.len() <= after.len() <= styles.len() + 1
            &&& after.take(styles.len() as int) == styles
            &&& k < after.len()
            &&& after[k as int] == attrs
        }),
{
    lemma_style_position(styles, attrs, 0);
    let (after, k) = style_entered(styles, attrs);
    assert(after.take(styles.len() as int) =~= styles);
}

proof fn lemma_default_attrs(attrs: AttrsModel)
    ensures
        attrs_are_default(attrs) <==> attrs == AttrsModel::plain(),
{
}

proof fn lemma_tells_with_more_styles(
    run: RunModel,
    styles: Seq<AttrsModel>,
    more: Seq<AttrsModel>,
    cell: CellModel,
    x: int,
)
    requires
        tells(run, styles, cell, x),
        styles.len() <= more.len(),
        more.take(styles.len() as int) == styles,
    ensures
        tells(run, more, cell, x),
{
    assert(more[run.style as int] == more.take(styles.len() as int)[run.style as int]);
}

/// What is told of a cell stays told with more runs and styles.
proof fn lemma_still_told(
    runs: Seq<RunModel>,
    styles: Seq<AttrsModel>,
    more_runs: Seq<RunModel>,
    more_styles: Seq<AttrsModel>,
    cell: CellModel,
    x: int,
)
    requires
        some_run_tells(runs, styles, cell, x),
        styles.len() <= more_styles.len(),
        more_styles.take(styles.len() as int) == styles,
        runs.len() <= more_runs.len(),
        forall|k: int| 0 <= k < runs.len() - 1 ==> #[trigger] more_runs[k] == runs[k],
        runs.len() > 0 ==> ({
            let (a, b) = (runs.last(), more_runs[runs.len() - 1]);
            ||| a == b
            ||| {
                &&& a.text.len() == a.columns
                &&& b.text.len() == b.columns
                &&& a.column == b.column
                &&& a.style == b.style
                &&& a.columns < b.columns
                &&& b.text.take(a.text.len() as int) == a.text
                &&& a.text.len() > 0
                &&& is_printable(a.text)
                &&& is_printable(b.text)
            }
        }),
        told_text(cell).len() > 1 || cell.wide ==> !is_printable(told_text(cell)),
    ensures
        some_run_tells(more_runs, more_styles, cell, x),
{
    let k = choose|k: int| 0 <= k < runs.len() && #[trigger] tells(runs[k], styles, cell, x);
    lemma_tells_with_more_styles(runs[k], styles, more_styles, cell, x);
    let (a, b) = (runs[k], more_runs[k]);
    if a != b {
        assert(k == runs.len() - 1);
        assert(b.text[x - b.column] == b.text.take(a.text.len() as int)[x - a.column]);
        assert(tells(b, more_styles, cell, x));
    }
    assert(tells(more_runs[k], more_styles, cell, x));
}

proof fn lemma_run_is_made_further(
    run: RunModel,
    cells: Seq<CellModel>,
    n: int,
    from: int,
    to: int,
)
    requires
        run_is_made(run, cells, n, from, to),
    ensures
        run_is_made(run, cells, n + 1, from, to),
{
}

/// A run that goes on with one more cell.
#[verifier::spinoff_prover]
proof fn lemma_run_goes_on(
    run: RunModel,
    more: RunModel,
    cells: Seq<CellModel>,
    n: int,
    from: int,
    to: int,
    c: char,
)
    requires
        run_is_made(run, cells, n, from, to),
        is_printable(run.text),
        run.column + run.columns == n,
        n < cells.len() <= u16::MAX,
        is_told(cells[n], n, from, to),
        ' ' <= c && c <= '~',
        more == (RunModel {
            text: run.text + seq![c],
            columns: saturated(run.columns + 1),
            ..run
        }),
    ensures
        run_is_made(more, cells, n + 1, from, to),
        more.text.len() == more.columns,
        run.text.len() == run.columns,
        more.columns == run.columns + 1,
        more.text.take(run.text.len() as int) == run.text,
        run.text.len() > 0,
        is_printable(more.text),
{
    assert(more.text.take(run.text.len() as int) =~= run.text);
    assert forall|x: int| more.column <= x < more.column + more.columns implies is_told(
        #[trigger] cells[x],
        x,
        from,
        to,
    ) by {
        if x < n {
            assert(is_told(cells[x], x, from, to));
        }
    }
}

/// One more cell that is told of.
#[verifier::spinoff_prover]
proof fn lemma_one_more_told(
    cells: Seq<CellModel>,
    n: int,
    from: int,
    to: int,
    before: Seq<AttrsModel>,
    o: ObservedModel,
)
    requires
        told_so_far(cells, n, from, to, before, o),
        0 <= n < cells.len() <= u16::MAX,
        before.len() + cells.len() < u32::MAX,
        one_each(cells),
        is_told(cells[n], n, from, to),
        0 <= from < u16::MAX,
        to <= u16::MAX,
    ensures
        told_so_far(cells, n + 1, from, to, before, o.step(cells[n], n, from, to)),
{
    reveal(told_so_far);
    let cell = cells[n];
    let width = if cell.wide { 2int } else { 1int };
    lemma_default_attrs(cell.attrs);
    let after = o.step(cell, n, from, to);
    let (styles, style) = style_entered(o.styles, cell.attrs);
    lemma_style_entered(o.styles, cell.attrs);
    let text = told_text(cell);
    assert(saturated(n + width) > from);
    assert(after.styles == styles);
    assert(after.runs == run_added(o.runs, n, width, text, style));
    assert(styles.take(before.len() as int) =~= before) by {
        assert(styles.take(o.styles.len() as int).take(before.len() as int) =~= styles.take(
            before.len() as int,
        ));
    }
    let last = o.runs.len() - 1;
    assert(is_printable(text) ==> text.len() == 1 && !cell.wide);
    if after.runs.len() == o.runs.len() {
        let run = o.runs[last];
        assert(run_is_made(run, cells, n, from, to));
        assert(text =~= seq![text[0]]);
        lemma_run_goes_on(run, after.runs[last], cells, n, from, to, text[0]);
        assert(tells(after.runs[last], styles, cell, n));
    } else {
        assert(after.runs[last + 1] == (RunModel {
            column: n as u16,
            columns: width as u16,
            text,
            style,
        }));
        assert(tells(after.runs[last + 1], styles, cell, n));
        assert(run_is_made(after.runs[last + 1], cells, n + 1, from, to));
    }
    assert(some_run_tells(after.runs, styles, cell, n));
    assert forall|x: int| 0 <= x < n + 1 && is_told(#[trigger] cells[x], x, from, to) implies some_run_tells(
        after.runs,
        styles,
        cells[x],
        x,
    ) by {
        if x < n {
            lemma_still_told(o.runs, o.styles, after.runs, styles, cells[x], x);
        }
    }
    assert forall|k: int| 0 <= k < after.runs.len() implies run_is_made(
        #[trigger] after.runs[k],
        cells,
        n + 1,
        from,
        to,
    ) by {
        if k < last || k == last && after.runs.len() > o.runs.len() {
            assert(after.runs[k] == o.runs[k]);
            lemma_run_is_made_further(o.runs[k], cells, n, from, to);
        }
    }
}

/// The cells of a row, told one after the other.
#[verifier::spinoff_prover]
proof fn lemma_cells_told(
    cells: Seq<CellModel>,
    n: int,
    from: int,
    to: int,
    before: Seq<AttrsModel>,
)
    requires
        0 <= n <= cells.len() <= u16::MAX,
        before.len() + cells.len() < u32::MAX,
        one_each(cells),
        0 <= from < u16::MAX,
        to <= u16::MAX,
    ensures
        told_so_far(cells, n, from, to, before, cells_observed(cells, n, from, to, before)),
    decreases n,
{
    let after = cells_observed(cells, n, from, to, before);
    if n == 0 {
        reveal(told_so_far);
        assert(before.take(before.len() as int) =~= before);
    } else {
        lemma_cells_told(cells, n - 1, from, to, before);
        let o = cells_observed(cells, n - 1, from, to, before);
        if is_told(cells[n - 1], n - 1, from, to) {
            lemma_one_more_told(cells, n - 1, from, to, before, o);
        } else {
            reveal(told_so_far);
            lemma_default_attrs(cells[n - 1].attrs);
            assert(after.runs == o.runs && after.styles == o.styles);
            assert forall|k: int| 0 <= k < after.runs.len() implies run_is_made(
                #[trigger] after.runs[k],
                cells,
                n,
                from,
                to,
            ) by {
                assert(run_is_made(o.runs[k], cells, n - 1, from, to));
            }
        }
    }
}

/// Every cell in the columns asked for that has text or a style to be seen is told of by a
/// run: at its column, with its text and its style. Every run starts on such a cell, and
/// one of printable ASCII holds such cells alone.
pub proof fn law_runs_tell_of_cells(
    cells: Seq<CellModel>,
    n: int,
    from: int,
    to: int,
    before: Seq<AttrsModel>,
    x: int,
    k: int,
)
    requires
        0 <= n <= cells.len() <= u16::MAX,
        before.len() + cells.len() < u32::MAX,
        one_each(cells),
        0 <= from < u16::MAX,
        to <= u16::MAX,
        0 <= x < n,
    ensures
        ({
            let o = cells_observed(cells, n, from, to, before);
            &&& is_told(cells[x], x, from, to) ==> some_run_tells(o.runs, o.styles, cells[x], x)
            &&& 0 <= k < o.runs.len() ==> {
                let run = o.runs[k];
                &&& run.column < n
                &&& is_told(cells[run.column as int], run.column as int, from, to)
                &&& is_printable(run.text) && run.column <= x < run.column + run.columns ==> is_told(
                    cells[x],
                    x,
                    from,
                    to,
                )
            }
            // Styles that were there before keep their places.
            &&& before.len() <= o.styles.len()
            &&& o.styles.take(before.len() as int) == before
        }),
{
    lemma_cells_told(cells, n, from, to, before);
    reveal(told_so_far);
    let o = cells_observed(cells, n, from, to, before);
    assert(cells[x] == cells[x]);
    if 0 <= k < o.runs.len() {
        assert(run_is_made(o.runs[k], cells, n, from, to));
    }
}

/// A row is said to hold graphics where a cell in the columns asked for stands for an image.
pub proof fn law_placeholders_are_noted(
    cells: Seq<CellModel>,
    n: int,
    from: int,
    to: int,
    before: Seq<AttrsModel>,
)
    requires
        0 <= n <= cells.len() <= u16::MAX,
        0 <= from < u16::MAX,
        to <= u16::MAX,
    ensures
        cells_observed(cells, n, from, to, before).placeholder <==> exists|x: int|
            0 <= x < n && stands_for_image(#[trigger] cells[x], x, from, to),
    decreases n,
{
    if n > 0 {
        law_placeholders_are_noted(cells, n - 1, from, to, before);
        let o = cells_observed(cells, n - 1, from, to, before);
        if o.placeholder {
            let x = choose|x: int|
                0 <= x < n - 1 && stands_for_image(#[trigger] cells[x], x, from, to);
            assert(stands_for_image(cells[x], x, from, to));
        }
        if stands_for_image(cells[n - 1], n - 1, from, to) {
            assert(saturated(n - 1 + (if cells[n - 1].wide { 2int } else { 1int })) > from);
        }
    }
}

/// Whether a cell in some columns stands for an image.
pub open spec fn stands_for_image(cell: CellModel, x: int, from: int, to: int) -> bool {
    &&& !cell.continuation
    &&& x < to
    &&& x + (if cell.wide { 2int } else { 1int }) > from
    &&& cell.text.len() > 0
    &&& cell.text[0] == '\u{10EEEE}'
}

// Rectangles.

/// Whether a row lies in what is asked for.
pub open spec fn asks_for_row(rect: Option<SnapshotRect>, y: int) -> bool {
    match rect {
        None => true,
        Some(rect) => rect.row <= y < rect.row + rect.rows,
    }
}

/// The first column that is asked for, on a screen of some width.
pub open spec fn first_column(rect: Option<SnapshotRect>, columns: u16) -> int {
    match rect {
        None => 0,
        Some(rect) => if rect.column < columns {
            rect.column as int
        } else {
            columns as int
        },
    }
}

/// The column behind those that are asked for, on a screen of some width.
pub open spec fn end_column(rect: Option<SnapshotRect>, columns: u16) -> int {
    match rect {
        None => columns as int,
        Some(rect) => if rect.column + rect.columns < columns {
            rect.column + rect.columns
        } else {
            columns as int
        },
    }
}

/// Whether there is something to tell of a row in what is asked for: it wraps, or some cell
/// has text or a style to be seen, or stands for an image.
pub open spec fn has_something(row: RowModel, rect: Option<SnapshotRect>, columns: u16) -> bool {
    ||| row.wrapped
    ||| exists|x: int|
        0 <= x < row.cells.len() && x < columns && cell_is_something(
            #[trigger] row.cells[x],
            x,
            rect,
            columns,
        )
}

pub open spec fn cell_is_something(
    cell: CellModel,
    x: int,
    rect: Option<SnapshotRect>,
    columns: u16,
) -> bool {
    is_told(cell, x, first_column(rect, columns), end_column(rect, columns)) || stands_for_image(
        cell,
        x,
        first_column(rect, columns),
        end_column(rect, columns),
    )
}

/// Whether a row of a snapshot tells of a row of the screen: of each of its cells in the
/// columns asked for, and of nothing outside of them.
pub open spec fn row_tells(
    told: RowViewModel,
    row: RowModel,
    y: int,
    rect: Option<SnapshotRect>,
    columns: u16,
    styles: Seq<AttrsModel>,
) -> bool {
    &&& told.row == y
    &&& told.wrapped == row.wrapped
    &&& told.graphics_placeholder <==> exists|x: int|
        0 <= x < row.cells.len() && x < columns && stands_for_image(
            #[trigger] row.cells[x],
            x,
            first_column(rect, columns),
            end_column(rect, columns),
        )
    &&& forall|x: int|
        0 <= x < row.cells.len() && x < columns && is_told(
            #[trigger] row.cells[x],
            x,
            first_column(rect, columns),
            end_column(rect, columns),
        ) ==> some_run_tells(told.runs, styles, row.cells[x], x)
    &&& forall|k: int|
        0 <= k < told.runs.len() ==> (#[trigger] told.runs[k]).column < row.cells.len()
            && told.runs[k].column < columns && is_told(
            row.cells[told.runs[k].column as int],
            told.runs[k].column as int,
            first_column(rect, columns),
            end_column(rect, columns),
        )
}

/// Whether the rows of a snapshot tell of the first `n` rows of the screen.
#[verifier::opaque]
pub open spec fn rows_told(
    content: Seq<RowViewModel>,
    styles: Seq<AttrsModel>,
    rows: Seq<RowModel>,
    n: int,
    rect: Option<SnapshotRect>,
    columns: u16,
) -> bool {
    // Every row is one that is asked for and of which there is something to tell.
    &&& forall|i: int|
        0 <= i < content.len() ==> {
            let y = (#[trigger] content[i]).row as int;
            &&& 0 <= y < n
            &&& asks_for_row(rect, y)
            &&& has_something(rows[y], rect, columns)
            &&& row_tells(content[i], rows[y], y, rect, columns, styles)
        }
    // From top to bottom.
    &&& forall|i: int, j: int|
        0 <= i < j < content.len() ==> (#[trigger] content[i]).row < (#[trigger] content[j]).row
    // And every such row is there.
    &&& forall|y: int|
        0 <= y < n && asks_for_row(rect, y) && has_something(#[trigger] rows[y], rect, columns)
            ==> is_row_of(content, y)
}

pub open spec fn is_row_of(content: Seq<RowViewModel>, y: int) -> bool {
    exists|i: int| 0 <= i < content.len() && (#[trigger] content[i]).row == y
}

proof fn lemma_row_tells_with_more_styles(
    told: RowViewModel,
    row: RowModel,
    y: int,
    rect: Option<SnapshotRect>,
    columns: u16,
    styles: Seq<AttrsModel>,
    more: Seq<AttrsModel>,
)
    requires
        row_tells(told, row, y, rect, columns, styles),
        styles.len() <= more.len(),
        more.take(styles.len() as int) == styles,
    ensures
        row_tells(told, row, y, rect, columns, more),
{
    assert forall|x: int|
        0 <= x < row.cells.len() && x < columns && is_told(
            #[trigger] row.cells[x],
            x,
            first_column(rect, columns),
            end_column(rect, columns),
        ) implies some_run_tells(told.runs, more, row.cells[x], x) by {
        assert(some_run_tells(told.runs, styles, row.cells[x], x));
        let k = choose|k: int|
            0 <= k < told.runs.len() && #[trigger] tells(told.runs[k], styles, row.cells[x], x);
        lemma_tells_with_more_styles(told.runs[k], styles, more, row.cells[x], x);
        assert(tells(told.runs[k], more, row.cells[x], x));
    }
}

/// One row told of, or left out where there is nothing to tell.
#[verifier::spinoff_prover]
proof fn lemma_row_told(
    row: RowModel,
    y: int,
    rect: Option<SnapshotRect>,
    columns: u16,
    before: Seq<AttrsModel>,
    plain: Option<Seq<char>>,
)
    requires
        row.cells.len() <= u16::MAX,
        columns < u16::MAX,
        one_each(row.cells),
        before.len() + row.cells.len() < u32::MAX,
        0 <= y < u16::MAX,
    ensures
        ({
            let width = if row.cells.len() < columns { row.cells.len() as int } else { columns as int };
            let o = cells_observed(
                row.cells,
                width,
                first_column(rect, columns),
                end_column(rect, columns),
                before,
            );
            let told = RowViewModel {
                row: y as u16,
                wrapped: row.wrapped,
                graphics_placeholder: o.placeholder,
                runs: o.runs,
                plain,
            };
            &&& before.len() <= o.styles.len() <= before.len() + width
            &&& o.styles.take(before.len() as int) == before
            &&& row_tells(told, row, y, rect, columns, o.styles)
            &&& o.runs.len() > 0 || row.wrapped || o.placeholder <==> has_something(
                row,
                rect,
                columns,
            )
        }),
{
    let cells = row.cells;
    let width = if cells.len() < columns { cells.len() as int } else { columns as int };
    let from = first_column(rect, columns);
    let to = end_column(rect, columns);
    let o = cells_observed(cells, width, from, to, before);
    lemma_cells_told(cells, width, from, to, before);
    law_placeholders_are_noted(cells, width, from, to, before);
    reveal(told_so_far);
    let told = RowViewModel {
        row: y as u16,
        wrapped: row.wrapped,
        graphics_placeholder: o.placeholder,
        runs: o.runs,
        plain,
    };
    assert forall|k: int| 0 <= k < told.runs.len() implies (#[trigger] told.runs[k]).column
        < cells.len() && told.runs[k].column < columns && is_told(
        cells[told.runs[k].column as int],
        told.runs[k].column as int,
        from,
        to,
    ) by {
        assert(run_is_made(o.runs[k], cells, width, from, to));
    }
    if o.runs.len() > 0 {
        let x = o.runs[0].column as int;
        assert(run_is_made(o.runs[0], cells, width, from, to));
        assert(cell_is_something(cells[x], x, rect, columns));
    }
    if o.placeholder {
        let x = choose|x: int| 0 <= x < width && stands_for_image(#[trigger] cells[x], x, from, to);
        assert(cell_is_something(cells[x], x, rect, columns));
    }
    if has_something(row, rect, columns) && !row.wrapped {
        let x = choose|x: int|
            0 <= x < cells.len() && x < columns && cell_is_something(
                #[trigger] cells[x],
                x,
                rect,
                columns,
            );
        if is_told(cells[x], x, from, to) {
            assert(some_run_tells(o.runs, o.styles, cells[x], x));
        }
    }
}

#[verifier::spinoff_prover]
proof fn lemma_rows_told(
    rows: Seq<RowModel>,
    columns: u16,
    rect: Option<SnapshotRect>,
    n: int,
    include_plain: bool,
)
    requires
        rows.len() < u16::MAX,
        columns < u16::MAX,
        forall|y: int|
            0 <= y < rows.len() ==> (#[trigger] rows[y]).cells.len() <= u16::MAX && one_each(
                rows[y].cells,
            ),
        0 <= n <= requested_span(rect, rows.len() as u16, columns).row_end,
    ensures
        ({
            let span = requested_span(rect, rows.len() as u16, columns);
            let (content, styles) = rows_observed(rows, columns as int, span, n, include_plain);
            &&& 1 <= styles.len() <= 1 + n * 0xffff
            &&& attrs_are_default(styles[0])
            &&& rows_told(content, styles, rows, n, rect, columns)
        }),
    decreases n,
{
    let span = requested_span(rect, rows.len() as u16, columns);
    let (content, styles) = rows_observed(rows, columns as int, span, n, include_plain);
    if n <= span.row_start || n <= 0 {
        reveal(rows_told);
    } else {
        lemma_rows_told(rows, columns, rect, n - 1, include_plain);
        let (before, earlier) = rows_observed(rows, columns as int, span, n - 1, include_plain);
        let y = n - 1;
        let row = rows[y];
        assert(rows[y].cells.len() <= u16::MAX);
        let width = if row.cells.len() < columns { row.cells.len() as int } else { columns as int };
        let o = cells_observed(row.cells, width, span.column_start, span.column_end, earlier);
        let plain = crate::snapshot::plain_view(o.runs, include_plain);
        assert(n * 0xffff <= 0xfffe * 0xffff) by (nonlinear_arith)
            requires
                n <= 0xfffe,
        ;
        lemma_row_told(row, y, rect, columns, earlier, plain);
        assert(styles == o.styles);
        assert(styles[0] == styles.take(earlier.len() as int)[0]);
        reveal(rows_told);
        assert(asks_for_row(rect, y));
        assert forall|i: int| 0 <= i < content.len() implies {
            let y = (#[trigger] content[i]).row as int;
            &&& 0 <= y < n
            &&& asks_for_row(rect, y)
            &&& has_something(rows[y], rect, columns)
            &&& row_tells(content[i], rows[y], y, rect, columns, styles)
        } by {
            if i < before.len() {
                assert(content[i] == before[i]);
                let z = before[i].row as int;
                lemma_row_tells_with_more_styles(
                    before[i],
                    rows[z],
                    z,
                    rect,
                    columns,
                    earlier,
                    styles,
                );
            }
        }
        assert forall|i: int, j: int| 0 <= i < j < content.len() implies (
        #[trigger] content[i]).row < (#[trigger] content[j]).row by {
            assert(content[i] == before[i]);
            if j < before.len() {
                assert(content[j] == before[j]);
            }
        }
        assert forall|z: int|
            0 <= z < n && asks_for_row(rect, z) && has_something(#[trigger] rows[z], rect, columns) implies is_row_of(
            content,
            z,
        ) by {
            if z < y {
                assert(is_row_of(before, z));
                let i = choose|i: int| 0 <= i < before.len() && (#[trigger] before[i]).row == z;
                assert(content[i].row == z);
            } else {
                assert(content[content.len() - 1].row == z);
            }
        }
    }
}

/// A snapshot tells of the rows that are asked for, and of those in which there is something
/// to tell, from top to bottom: of each cell in the columns asked for that has text or a
/// style to be seen, at its column, with its text and its style, and of nothing outside of
/// them. The first style is that of text that nothing was asked for.
pub proof fn law_snapshots_tell_what_is_asked_for(
    rows: Seq<RowModel>,
    columns: u16,
    rect: Option<SnapshotRect>,
    include_plain: bool,
)
    requires
        rows.len() < u16::MAX,
        columns < u16::MAX,
        forall|y: int|
            0 <= y < rows.len() ==> (#[trigger] rows[y]).cells.len() <= u16::MAX && one_each(
                rows[y].cells,
            ),
    ensures
        ({
            let span = requested_span(rect, rows.len() as u16, columns);
            let (content, styles) = rows_observed(
                rows,
                columns as int,
                span,
                span.row_end,
                include_plain,
            );
            &&& rows_told(content, styles, rows, rows.len() as int, rect, columns)
            &&& styles.len() > 0 && attrs_are_default(styles[0])
        }),
{
    let span = requested_span(rect, rows.len() as u16, columns);
    let (content, styles) = rows_observed(rows, columns as int, span, span.row_end, include_plain);
    lemma_rows_told(rows, columns, rect, span.row_end, include_plain);
    reveal(rows_told);
    assert forall|y: int|
        0 <= y < rows.len() && asks_for_row(rect, y) && has_something(
            #[trigger] rows[y],
            rect,
            columns,
        ) implies is_row_of(content, y) by {
        assert(y < span.row_end);
    }
}

// Views of a snapshot.

/// A run that is cut to some columns keeps its characters in their columns, where it has one
/// for each column: what lies in both is there, and nothing else.
pub proof fn law_clipped_runs_keep_their_columns(run: RunModel, from: int, to: int, x: int)
    requires
        is_printable(run.text),
        run.columns == run.text.len(),
        run.column + run.columns <= u16::MAX,
        0 <= from,
    ensures
        ({
            let in_both = run.column <= x < run.column + run.columns && from <= x < to;
            match clipped(run, from, to) {
                None => !in_both,
                Some(kept) => {
                    &&& kept.style == run.style
                    &&& kept.columns == kept.text.len()
                    &&& in_both <==> kept.column <= x < kept.column + kept.columns
                    &&& in_both ==> kept.text[x - kept.column] == run.text[x - run.column]
                },
            }
        }),
{
}

/// A row of a view is one in the rectangle, and has all that is left of its runs there; no
/// row in the rectangle that has something left is missing.
pub proof fn law_views_hold_the_rectangle(
    row: RowViewModel,
    rect: SnapshotRect,
    rows: u16,
    columns: u16,
    k: int,
)
    requires
        row.row < rows,
        row.row < u16::MAX,
        0 <= k < row.runs.len(),
    ensures
        ({
            let inside = rect.row <= row.row < rect.row + rect.rows;
            let end = if rect.column + rect.columns < columns {
                rect.column + rect.columns
            } else {
                columns as int
            };
            let left = clipped(row.runs[k], rect.column as int, end);
            match row_clipped(row, rect, rows, columns) {
                None => !inside || !row.wrapped && !row.graphics_placeholder && left is None,
                Some(kept) => {
                    &&& inside
                    &&& kept.row == row.row
                    &&& kept.wrapped == row.wrapped
                    &&& kept.graphics_placeholder == row.graphics_placeholder
                    &&& left matches Some(run) ==> kept.runs.contains(run)
                },
            }
        }),
{
    let end = if rect.column + rect.columns < columns {
        rect.column + rect.columns
    } else {
        columns as int
    };
    lemma_runs_clipped(row.runs, row.runs.len() as int, rect.column as int, end, k);
}

proof fn lemma_runs_clipped(runs: Seq<RunModel>, n: int, from: int, to: int, k: int)
    requires
        0 <= k < n <= runs.len(),
    ensures
        clipped(runs[k], from, to) matches Some(run) ==> runs_clipped(runs, n, from, to).contains(
            run,
        ) && runs_clipped(runs, n, from, to).len() > 0,
    decreases n,
{
    if let Some(run) = clipped(runs[k], from, to) {
        let after = runs_clipped(runs, n, from, to);
        if k < n - 1 {
            lemma_runs_clipped(runs, n - 1, from, to, k);
            let before = runs_clipped(runs, n - 1, from, to);
            let i = before.index_of(run);
            assert(before[i] == run);
            assert(after[i] == run);
        } else {
            assert(after.last() == run);
        }
    }
}

/// Whether runs stand one behind the other, with a column for each character.
pub open spec fn side_by_side(runs: Seq<RunModel>) -> bool {
    &&& forall|k: int|
        0 <= k < runs.len() ==> (#[trigger] runs[k]).columns == runs[k].text.len() && runs[k].column
            + runs[k].columns <= u16::MAX
    &&& forall|i: int, j: int|
        0 <= i < j < runs.len() ==> (#[trigger] runs[i]).column + runs[i].columns <= (
        #[trigger] runs[j]).column
}

/// Plain text has every character of the runs in its column, and spaces between them.
pub proof fn law_plain_text_keeps_columns(runs: Seq<RunModel>, n: int, k: int, x: int)
    requires
        side_by_side(runs),
        0 <= k < n <= runs.len(),
    ensures
        ({
            let (plain, end) = plain_text(runs, n);
            &&& plain.len() == end
            &&& end == runs[n - 1].column + runs[n - 1].columns
            &&& runs[k].column <= x < runs[k].column + runs[k].columns ==> plain[x]
                == runs[k].text[x - runs[k].column]
            &&& 0 <= x < plain.len() && (forall|i: int|
                0 <= i < n ==> !((#[trigger] runs[i]).column <= x < runs[i].column
                    + runs[i].columns)) ==> plain[x] == ' '
        }),
    decreases n,
{
    let (plain, end) = plain_text(runs, n);
    let run = runs[n - 1];
    if n > 1 {
        let inner = if k < n - 1 { k } else { 0 };
        law_plain_text_keeps_columns(runs, n - 1, inner, x);
        assert(runs[n - 2].column + runs[n - 2].columns <= runs[n - 1].column);
    }
    let (before, column) = plain_text(runs, n - 1);
    let gap = Seq::new((run.column - column) as nat, |i: int| ' ');
    assert(plain == before + gap + run.text);
    if k < n - 1 {
        assert(runs[k].column + runs[k].columns <= runs[n - 1].column);
        if runs[k].column <= x < runs[k].column + runs[k].columns {
            assert(x < before.len());
        }
    }
}

// Names.

/// A snapshot says where the cursor is drawn, whether it is seen, and which modes are on.
pub proof fn law_snapshots_show_the_modes(snapshot: ScreenSnapshot, screen: ScreenModel)
    requires
        shows_state(snapshot, screen),
    ensures
        ({
            let grid = if screen.modes.alternate_screen { screen.alternate_grid } else { screen.grid };
            let stack = if screen.modes.alternate_screen {
                screen.alternate_keyboard
            } else {
                screen.keyboard
            };
            &&& snapshot.cursor.row == grid.pos.row
            &&& grid.pos.col < grid.size.cols && !grid.rows[grid.pos.row as int].cells[grid.pos.col as int].continuation
                ==> snapshot.cursor.column == grid.pos.col
            &&& snapshot.cursor.visible <==> !screen.modes.hide_cursor && grid.scrollback_offset == 0
            &&& snapshot.modes.alternate_screen == screen.modes.alternate_screen
            &&& snapshot.modes.application_cursor == screen.modes.application_cursor
            &&& snapshot.modes.application_keypad == screen.modes.application_keypad
            &&& snapshot.modes.bracketed_paste == screen.modes.bracketed_paste
            &&& snapshot.modes.modify_other_keys == screen.modify_other_keys
            &&& snapshot.modes.kitty_keyboard_flags == (if stack.len() == 0 { 0 } else { stack.last() })
            &&& snapshot.modes.mouse_protocol@ == (match screen.mouse_mode {
                MouseProtocolMode::Off => "none"@,
                MouseProtocolMode::Press => "press"@,
                MouseProtocolMode::PressRelease => "press_release"@,
                MouseProtocolMode::ButtonMotion => "button_motion"@,
                MouseProtocolMode::AnyMotion => "any_motion"@,
            })
            &&& snapshot.modes.mouse_encoding@ == (match screen.mouse_encoding {
                MouseProtocolEncoding::Default => "default"@,
                MouseProtocolEncoding::Utf8 => "utf8"@,
                MouseProtocolEncoding::Sgr => "sgr"@,
            })
        }),
{
}

/// The name of a color, with its number or the numbers of its red, green and blue.
pub open spec fn says_color(name: Seq<char>, color: Color) -> bool {
    match color {
        Color::Default => name == "default"@,
        Color::Idx(index) => name == "indexed:"@ + number_text(index as nat),
        Color::Rgb(red, green, blue) => name == "rgb:"@ + number_text(red as nat) + ","@
            + number_text(green as nat) + ","@ + number_text(blue as nat),
    }
}

/// A style says each attribute under its name.
pub proof fn law_styles_name_attributes(style: SnapshotStyle, attrs: AttrsModel)
    requires
        describes(style, attrs),
    ensures
        says_color(style.foreground@, attrs.fgcolor),
        says_color(style.background@, attrs.bgcolor),
        says_color(style.underline_color@, attrs.underline_color),
        style.bold <==> attrs.intensity == Intensity::Bold,
        style.dim <==> attrs.intensity == Intensity::Dim,
        style.italic == attrs.italic,
        style.underline == attrs.underline,
        style.inverse == attrs.inverse,
        style.hidden == attrs.hidden,
        style.strikeout == attrs.strikeout,
        attrs.blink == Blink::Steady ==> style.blink@ == "none"@,
        attrs.blink == Blink::Slow ==> style.blink@ == "slow"@,
        attrs.blink == Blink::Rapid ==> style.blink@ == "rapid"@,
{
}

/// The number that decimal digits stand for.
pub open spec fn value_of(digits: Seq<char>) -> int
    decreases digits.len(),
{
    if digits.len() == 0 {
        0
    } else {
        value_of(digits.drop_last()) * 10 + (digits.last() as int - 48)
    }
}

/// A number is written in decimal digits that stand for it, without a zero before them.
pub proof fn law_numbers_are_written_in_decimal(n: nat)
    ensures
        value_of(number_text(n)) == n,
        number_text(n).len() > 0,
        forall|i: int|
            0 <= i < number_text(n).len() ==> '0' <= #[trigger] number_text(n)[i] && number_text(n)[i]
                <= '9',
        number_text(n)[0] == '0' ==> n == 0,
    decreases n,
{
    if n < 10 {
        let text = number_text(n);
        assert(text.drop_last() =~= Seq::<char>::empty());
        assert(value_of(text.drop_last()) == 0);
    } else {
        law_numbers_are_written_in_decimal(n / 10);
        let text = number_text(n);
        assert(text.drop_last() =~= number_text(n / 10));
        assert(text[0] == number_text(n / 10)[0]);
        assert forall|i: int| 0 <= i < text.len() implies '0' <= #[trigger] text[i] && text[i] <= '9' by {
            if i < text.len() - 1 {
                assert(text[i] == number_text(n / 10)[i]);
            }
        }
    }
}

proof fn lemma_clipped_from(runs: Seq<RunModel>, n: int, from: int, to: int, j: int)
    requires
        0 <= n <= runs.len(),
        0 <= j < runs_clipped(runs, n, from, to).len(),
    ensures
        exists|k: int|
            0 <= k < n && clipped(#[trigger] runs[k], from, to) == Some(
                runs_clipped(runs, n, from, to)[j],
            ),
    decreases n,
{
    if n > 0 {
        let before = runs_clipped(runs, n - 1, from, to);
        if j < before.len() {
            lemma_clipped_from(runs, n - 1, from, to, j);
        } else {
            assert(clipped(runs[n - 1], from, to) == Some(runs_clipped(runs, n, from, to)[j]));
        }
    }
}

/// A row of a view has something to tell: a part of one of its runs, that it wraps, or that it
/// has a placeholder; and its runs are parts of the runs that it had, in their order.
pub proof fn law_views_leave_out_what_tells_nothing(
    row: RowViewModel,
    rect: SnapshotRect,
    rows: u16,
    columns: u16,
    run: RunModel,
)
    requires
        row.row < rows,
        row.row < u16::MAX,
    ensures
        ({
            let end = if rect.column + rect.columns < columns {
                rect.column + rect.columns
            } else {
                columns as int
            };
            let from = rect.column as int;
            let all = row.runs.push(run);
            &&& row_clipped(row, rect, rows, columns) matches Some(kept) ==> (kept.runs.len() > 0
                || row.wrapped || row.graphics_placeholder) && forall|j: int|
                0 <= j < kept.runs.len() ==> is_part_of_one(row.runs, from, end, #[trigger] kept.runs[j])
            &&& clipped(run, from, end) matches Some(part) ==> runs_clipped(
                all,
                all.len() as int,
                from,
                end,
            ) == runs_clipped(row.runs, row.runs.len() as int, from, end).push(part)
        }),
{
    let end = if rect.column + rect.columns < columns {
        rect.column + rect.columns
    } else {
        columns as int
    };
    let from = rect.column as int;
    if row_clipped(row, rect, rows, columns) is Some {
        let kept = row_clipped(row, rect, rows, columns).unwrap();
        assert forall|j: int| 0 <= j < kept.runs.len() implies is_part_of_one(
            row.runs,
            from,
            end,
            #[trigger] kept.runs[j],
        ) by {
            lemma_clipped_from(row.runs, row.runs.len() as int, from, end, j);
        }
    }
    lemma_clipped_prefix(row.runs, run, row.runs.len() as int, from, end);
}

/// Whether a run is what some columns leave of one of some runs.
pub open spec fn is_part_of_one(runs: Seq<RunModel>, from: int, to: int, part: RunModel) -> bool {
    exists|k: int| 0 <= k < runs.len() && clipped(#[trigger] runs[k], from, to) == Some(part)
}

proof fn lemma_clipped_prefix(runs: Seq<RunModel>, run: RunModel, n: int, from: int, to: int)
    requires
        0 <= n <= runs.len(),
    ensures
        runs_clipped(runs.push(run), n, from, to) == runs_clipped(runs, n, from, to),
    decreases n,
{
    if n > 0 {
        lemma_clipped_prefix(runs, run, n - 1, from, to);
    }
}

/// A view without a rectangle has every row, with its plain text where that is asked for, and
/// without it where it is not.
pub proof fn law_whole_views_have_every_row(
    content: Seq<RowViewModel>,
    n: int,
    rows: u16,
    columns: u16,
    include_plain: bool,
    i: int,
)
    requires
        0 <= i < n <= content.len(),
    ensures
        ({
            let viewed = content_viewed(content, n, None, rows, columns, include_plain);
            &&& viewed.len() == n
            &&& viewed[i].row == content[i].row
            &&& viewed[i].runs == content[i].runs
            &&& viewed[i].wrapped == content[i].wrapped
            &&& viewed[i].graphics_placeholder == content[i].graphics_placeholder
            &&& include_plain ==> viewed[i].plain == Some(
                plain_text(content[i].runs, content[i].runs.len() as int).0,
            )
            &&& !include_plain ==> viewed[i].plain is None
        }),
    decreases n,
{
    if i < n - 1 {
        law_whole_views_have_every_row(content, n - 1, rows, columns, include_plain, i);
    } else if n > 1 {
        law_whole_views_have_every_row(content, n - 1, rows, columns, include_plain, 0);
    } else {
        assert(content_viewed(content, 0, None, rows, columns, include_plain).len() == 0);
    }
}

} // verus!
