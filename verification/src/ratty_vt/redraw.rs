//! A screen that is written out draws itself again.

use crate::ratty_vt::attrs::{attrs_diff, AttrsModel};
use crate::ratty_vt::cell::CellModel;
use crate::ratty_vt::codes::{
    canvas, code_bytes, code_event, codes_bytes, drawn_by, draws, framed, lemma_code,
    lemma_cursor_code, lemma_literal, lemma_recolor, lemma_sgr_bytes, lemma_sgr_code, lemma_single,
    lemma_start, replayed, shows, turns, CanvasModel, CodeModel,
};
use crate::ratty_vt::event::EventModel;
use crate::ratty_vt::grid::{Pos, Size};
use crate::ratty_vt::grid_model::{
    end_cell, filled_row_above, goto, line_feeds, redrawn, rows_formatted, GridModel, WrittenModel,
};
use crate::ratty_vt::laws::{law_attributes_round_trip, single_params};
use crate::ratty_vt::perform::{param_or, quiet};
use crate::ratty_vt::row::{
    blank_cells, last_glyph_col, row_formatted, spaces, step_over_wrap, PenModel, RowModel,
};
use crate::ratty_vt::screen_model::{
    columns_of, owner_col, row_drawn, row_joined, ScreenModel,
};
use crate::ratty_vt::term;
use crate::ratty_vt::unicode::{char_columns, stands_apart, text_width};
use crate::ratty_vt::wide::{whole, whole_at};
use vstd::prelude::*;
use vstd::utf8::{encode_scalar, encode_utf8};

verus! {

/// A plain control sequence.
proof fn lemma_csi_performed(s: ScreenModel, params: Seq<Seq<u16>>, c: char)
    requires
        c != 'm',
        c != 't',
        s.parted().csi_plain(params, c) is Some,
    ensures
        s.performed(EventModel::Csi(params, Seq::empty(), c), 0) == quiet(
            s.parted().csi_plain(params, c).unwrap(),
        ),
{
    reveal(ScreenModel::performed);
}

/// The cursor moved to a position on the screen.
proof fn lemma_moved(s: ScreenModel, size: Size, params: Seq<Seq<u16>>, to: Pos)
    requires
        framed(s, size),
        to.row < size.rows,
        to.col < size.cols,
        param_or(params, 0, 1) == to.row + 1,
        param_or(params, 1, 1) == to.col + 1,
    ensures
        s.csi_plain(params, 'H') == Some(
            ScreenModel { grid: GridModel { pos: to, ..s.grid }, ..s },
        ),
{
    reveal(ScreenModel::csi_plain);
}

pub proof fn lemma_move_to(out: Seq<u8>, size: Size, origin: ScreenModel, c: CanvasModel, to: Pos)
    requires
        draws(out, size, origin, c),
        to.row < size.rows,
        to.col < size.cols,
    ensures
        draws(out + term::move_to(to), size, origin, CanvasModel { pos: to, joins: false, ..c }),
{
    let home = to.row == 0 && to.col == 0;
    let params = if home {
        Seq::empty()
    } else {
        seq![(to.row + 1) as u16, (to.col + 1) as u16]
    };
    let code = CodeModel::Csi(params, 'H');
    let list = if home { seq![seq![0u16]] } else { single_params(params) };
    let after = CanvasModel { pos: to, joins: false, ..c };
    if home {
        assert(list[0].len() == 1 && list[0][0] == 0);
    } else {
        assert(list[0].len() == 1 && list[0][0] == to.row + 1);
        assert(list[1].len() == 1 && list[1][0] == to.col + 1);
    }
    assert forall|s: ScreenModel| shows(s, size, c) implies {
        let p = #[trigger] s.performed(code_event(code), 0);
        p.next is None && shows(p.screen, size, after)
    } by {
        lemma_moved(s.parted(), size, list, to);
        lemma_csi_performed(s, list, 'H');
        let p = s.performed(code_event(code), 0);
        assert(canvas(p.screen).cells =~= canvas(s).cells);
    }
    lemma_code(out, size, origin, c, code, after);
    reveal_strlit("\x1b[");
    reveal_strlit("\x1b[H");
    reveal_strlit("H");
    lemma_single('H');
    lemma_literal("\x1b[H"@, "\x1b["@, 'H');
    assert("H"@ =~= seq!['H']);
    if home {
        assert(term::joined_params(params) =~= Seq::<u8>::empty());
    } else {
        assert(params.drop_last() =~= seq![(to.row + 1) as u16]);
        reveal_with_fuel(term::joined_params, 2);
    }
    assert(code_bytes(code) =~= term::move_to(to));
}

/// A control character that moves the cursor alone.
pub proof fn lemma_control(out: Seq<u8>, size: Size, origin: ScreenModel, c: CanvasModel, control: char, to: Pos)
    requires
        draws(out, size, origin, c),
        c.pos.row < size.rows,
        c.pos.col <= size.cols,
        match control {
            '\x08' => c.pos.col > 0 && to == (Pos { row: c.pos.row, col: (c.pos.col - 1) as u16 }),
            '\n' => c.pos.row + 1 < size.rows && to == (Pos {
                row: (c.pos.row + 1) as u16,
                col: c.pos.col,
            }),
            '\r' => to == (Pos { row: c.pos.row, col: 0 }),
            _ => false,
        },
    ensures
        draws(
            out + encode_scalar(control as u32),
            size,
            origin,
            CanvasModel { pos: to, joins: false, ..c },
        ),
{
    let code = CodeModel::Control(control);
    let after = CanvasModel { pos: to, joins: false, ..c };
    assert forall|s: ScreenModel| shows(s, size, c) implies {
        let p = #[trigger] s.performed(code_event(code), 0);
        p.next is None && shows(p.screen, size, after)
    } by {
        lemma_control_performed(s, size, control, to);
        let p = s.performed(code_event(code), 0);
        assert(canvas(p.screen).cells =~= canvas(s).cells);
    }
    lemma_code(out, size, origin, c, code, after);
}

proof fn lemma_control_performed(s: ScreenModel, size: Size, control: char, to: Pos)
    requires
        framed(s, size),
        match control {
            '\x08' => s.grid.pos.col > 0 && to == (Pos {
                row: s.grid.pos.row,
                col: (s.grid.pos.col - 1) as u16,
            }),
            '\n' => s.grid.pos.row + 1 < size.rows && to == (Pos {
                row: (s.grid.pos.row + 1) as u16,
                col: s.grid.pos.col,
            }),
            '\r' => to == (Pos { row: s.grid.pos.row, col: 0 }),
            _ => false,
        },
    ensures
        s.performed(EventModel::Execute(control as u8), 0) == quiet(
            ScreenModel { grid: GridModel { pos: to, ..s.grid }, joins: false, ..s },
        ),
{
    reveal(ScreenModel::performed);
    let t = s.parted();
    assert(t.active() == s.grid);
    if control == '\n' {
        assert(s.grid.row_inc_scroll(1).0 == (GridModel { pos: to, ..s.grid })) by {
            assert(s.grid.in_scroll_region());
            assert(s.grid.row_down(1) == (GridModel { pos: to, ..s.grid }));
            assert(s.grid.row_down(1).scrolled_up(0) == s.grid.row_down(1));
        }
    }
}

/// The cursor some columns further right.
proof fn lemma_move_right(out: Seq<u8>, size: Size, origin: ScreenModel, c: CanvasModel, to: Pos)
    requires
        draws(out, size, origin, c),
        to.row == c.pos.row,
        c.pos.col < to.col < size.cols,
    ensures
        draws(
            out + term::move_right(to.col - c.pos.col),
            size,
            origin,
            CanvasModel { pos: to, joins: false, ..c },
        ),
{
    let count = to.col - c.pos.col;
    let params = if count == 1 { Seq::empty() } else { seq![count as u16] };
    let code = CodeModel::Csi(params, 'C');
    let list = if count == 1 { seq![seq![0u16]] } else { single_params(params) };
    let after = CanvasModel { pos: to, joins: false, ..c };
    assert(list[0].len() == 1 && list[0][0] == if count == 1 { 0 } else { count });
    assert forall|s: ScreenModel| shows(s, size, c) implies {
        let p = #[trigger] s.performed(code_event(code), 0);
        p.next is None && shows(p.screen, size, after)
    } by {
        assert(s.parted().csi_plain(list, 'C') == Some(
            ScreenModel { grid: GridModel { pos: to, ..s.grid }, ..s.parted() },
        )) by {
            reveal(ScreenModel::csi_plain);
        }
        lemma_csi_performed(s, list, 'C');
        let p = s.performed(code_event(code), 0);
        assert(canvas(p.screen).cells =~= canvas(s).cells);
    }
    lemma_code(out, size, origin, c, code, after);
    reveal_strlit("\x1b[C");
    reveal_strlit("\x1b[");
    reveal_strlit("C");
    assert("\x1b[C"@ =~= "\x1b["@.push('C'));
    assert("C"@ =~= seq!['C']);
    lemma_counted_bytes(count, params, 'C', "\x1b[C", "C");
}

/// The bytes of a sequence with a count, which is left out where it is one.
proof fn lemma_counted_bytes(count: int, params: Seq<u16>, last: char, short: &str, end: &str)
    requires
        0 < count <= u16::MAX,
        params == if count == 1 { Seq::empty() } else { seq![count as u16] },
        short@ == "\x1b["@.push(last),
        end@ == seq![last],
    ensures
        code_bytes(CodeModel::Csi(params, last)) == (if count == 1 {
            term::ascii(short)
        } else {
            term::ascii("\x1b[") + term::decimal(count as nat) + term::ascii(end)
        }),
{
    lemma_single(last);
    lemma_literal(short@, "\x1b["@, last);
    let bytes = code_bytes(CodeModel::Csi(params, last));
    if count == 1 {
        assert(term::joined_params(params) =~= Seq::<u8>::empty());
        assert(bytes =~= term::ascii(short));
    } else {
        assert(params[0] == count);
        assert(bytes =~= term::ascii("\x1b[") + term::decimal(count as nat) + term::ascii(end));
    }
}

/// Cells of which some columns were cleared.
spec fn cleared_between(cells: Seq<CellModel>, from: int, to: int, attrs: AttrsModel) -> Seq<CellModel> {
    Seq::new(
        cells.len(),
        |j: int|
            if from <= j < to {
                CellModel::cleared(attrs)
            } else {
                cells[j]
            },
    )
}

/// Whether some columns hold no half of a wide character.
spec fn narrow_between(cells: Seq<CellModel>, from: int, to: int) -> bool {
    forall|j: int| from <= j < to ==> !(#[trigger] cells[j]).wide && !cells[j].continuation
}

proof fn lemma_erased_narrow(row: RowModel, from: int, to: int, attrs: AttrsModel)
    requires
        0 <= from <= to <= row.cells.len(),
        narrow_between(row.cells, from, to),
    ensures
        row.erased_range(from, to, attrs).cells == cleared_between(row.cells, from, to, attrs),
    decreases to - from,
{
    let erased = row.erased_range(from, to, attrs).cells;
    if from < to {
        lemma_erased_narrow(row, from, to - 1, attrs);
        assert(row.cells[to - 1] == cleared_between(row.cells, from, to - 1, attrs)[to - 1]);
    }
    assert(erased =~= cleared_between(row.cells, from, to, attrs));
}

/// Cells as a row.
pub open spec fn as_row(cells: Seq<CellModel>, wrapped: bool) -> RowModel {
    RowModel { cells, wrapped, placeholder: false }
}

/// The canvas with columns of the cursor's row erased.
pub open spec fn wiped(c: CanvasModel, from: int, to: int) -> CanvasModel {
    let row = c.pos.row as int;
    let erased = as_row(c.cells[row], c.wraps[row]).erased_range(from, to, c.attrs);
    CanvasModel {
        cells: c.cells.update(row, erased.cells),
        wraps: c.wraps.update(row, erased.wrapped),
        joins: false,
        ..c
    }
}

/// What erasing leaves of a row has nothing to do with placeholders.
proof fn lemma_erased_cells(row: RowModel, from: int, to: int, attrs: AttrsModel)
    requires
        0 <= from,
        to <= row.cells.len(),
    ensures
        ({
            let erased = row.erased_range(from, to, attrs);
            let same = as_row(row.cells, row.wrapped).erased_range(from, to, attrs);
            erased.cells == same.cells && erased.wrapped == same.wrapped
        }),
        row.erased_range(from, to, attrs).wrapped ==> row.wrapped,
        row.erased_range(from, to, attrs).cells.len() == row.cells.len(),
    decreases to - from,
{
    if from < to {
        lemma_erased_cells(row, from, to - 1, attrs);
    }
}

/// Columns erased that hold no half of a wide character.
proof fn lemma_wiped_narrow(c: CanvasModel, from: int, to: int)
    requires
        0 <= c.pos.row < c.cells.len(),
        0 <= from <= to <= c.cells[c.pos.row as int].len(),
        narrow_between(c.cells[c.pos.row as int], from, to),
        c.wraps.len() == c.cells.len(),
        !c.wraps[c.pos.row as int],
    ensures
        wiped(c, from, to).wraps == c.wraps,
        wiped(c, from, to).cells == c.cells.update(
            c.pos.row as int,
            cleared_between(c.cells[c.pos.row as int], from, to, c.attrs),
        ),
{
    let row = c.pos.row as int;
    lemma_erased_narrow(as_row(c.cells[row], c.wraps[row]), from, to, c.attrs);
    lemma_erased_cells(as_row(c.cells[row], c.wraps[row]), from, to, c.attrs);
    assert(wiped(c, from, to).wraps =~= c.wraps);
}

/// Columns erased on the cursor's row.
proof fn lemma_wiped(s: ScreenModel, size: Size, from: int, to: int)
    requires
        framed(s, size),
        0 <= from,
        to <= size.cols,
    ensures
        ({
            let t = s.parted().with_active(s.grid.erased_cols(from, to, s.attrs));
            framed(t, size) && canvas(t) == wiped(canvas(s), from, to)
        }),
{
    let row = s.grid.pos.row as int;
    lemma_erased_cells(s.grid.rows[row], from, to, s.attrs);
    let t = s.parted().with_active(s.grid.erased_cols(from, to, s.attrs));
    assert(canvas(s).cells[row] == s.grid.rows[row].cells);
    assert(canvas(s).wraps[row] == s.grid.rows[row].wrapped);
    assert(canvas(t).cells =~= wiped(canvas(s), from, to).cells);
    assert(canvas(t).wraps =~= wiped(canvas(s), from, to).wraps);
}

pub proof fn lemma_erase_char(out: Seq<u8>, size: Size, origin: ScreenModel, c: CanvasModel, count: int)
    requires
        draws(out, size, origin, c),
        0 < count,
        c.pos.row < size.rows,
        c.pos.col + count <= size.cols,
    ensures
        draws(
            out + term::erase_char(count),
            size,
            origin,
            wiped(c, c.pos.col as int, c.pos.col + count),
        ),
{
    let params = if count == 1 { Seq::empty() } else { seq![count as u16] };
    let code = CodeModel::Csi(params, 'X');
    let list = if count == 1 { seq![seq![0u16]] } else { single_params(params) };
    let after = wiped(c, c.pos.col as int, c.pos.col + count);
    assert(list[0].len() == 1 && list[0][0] == if count == 1 { 0 } else { count });
    assert forall|s: ScreenModel| shows(s, size, c) implies {
        let p = #[trigger] s.performed(code_event(code), 0);
        p.next is None && shows(p.screen, size, after)
    } by {
        let row = s.grid.pos.row as int;
        assert(canvas(s).cells[row] == s.grid.rows[row].cells);
        lemma_wiped(s, size, c.pos.col as int, c.pos.col + count);
        assert(s.parted().csi_plain(list, 'X') == Some(
            s.parted().with_active(
                s.grid.erased_cols(c.pos.col as int, c.pos.col + count, s.attrs),
            ),
        )) by {
            reveal(ScreenModel::csi_plain);
        }
        lemma_csi_performed(s, list, 'X');
    }
    lemma_code(out, size, origin, c, code, after);
    reveal_strlit("\x1b[X");
    reveal_strlit("\x1b[");
    reveal_strlit("X");
    assert("\x1b[X"@ =~= "\x1b["@.push('X'));
    assert("X"@ =~= seq!['X']);
    lemma_counted_bytes(count, params, 'X', "\x1b[X", "X");
}

pub proof fn lemma_erase_to_end(out: Seq<u8>, size: Size, origin: ScreenModel, c: CanvasModel)
    requires
        draws(out, size, origin, c),
        c.pos.row < size.rows,
        c.pos.col <= size.cols,
    ensures
        draws(
            out + encode_utf8("\x1b[K"@),
            size,
            origin,
            wiped(c, c.pos.col as int, size.cols as int),
        ),
{
    let params = Seq::<u16>::empty();
    let code = CodeModel::Csi(params, 'K');
    let list = seq![seq![0u16]];
    let after = wiped(c, c.pos.col as int, size.cols as int);
    assert(list[0].len() == 1 && list[0][0] == 0);
    assert forall|s: ScreenModel| shows(s, size, c) implies {
        let p = #[trigger] s.performed(code_event(code), 0);
        p.next is None && shows(p.screen, size, after)
    } by {
        let row = s.grid.pos.row as int;
        assert(canvas(s).cells[row] == s.grid.rows[row].cells);
        lemma_wiped(s, size, c.pos.col as int, size.cols as int);
        assert(s.parted().csi_plain(list, 'K') == Some(
            s.parted().with_active(
                s.grid.erased_cols(c.pos.col as int, size.cols as int, s.attrs),
            ),
        )) by {
            reveal(ScreenModel::csi_plain);
            reveal(ScreenModel::line_erased);
        }
        lemma_csi_performed(s, list, 'K');
    }
    lemma_code(out, size, origin, c, code, after);
    reveal_strlit("\x1b[K");
    reveal_strlit("\x1b[");
    lemma_literal("\x1b[K"@, "\x1b["@, 'K');
    assert(term::joined_params(params) =~= Seq::<u8>::empty());
    assert(code_bytes(code) =~= encode_utf8("\x1b[K"@));
}

/// The cursor moved from where it is to another position.
pub proof fn lemma_move_from_to(out: Seq<u8>, size: Size, origin: ScreenModel, c: CanvasModel, to: Pos)
    requires
        draws(out, size, origin, c),
        c.pos.row < size.rows,
        c.pos.col <= size.cols,
        to.row < size.rows,
        to.col < size.cols,
    ensures
        draws(
            out + term::move_from_to(c.pos, to),
            size,
            origin,
            CanvasModel { pos: to, joins: c.joins && to == c.pos, ..c },
        ),
{
    if to.row == c.pos.row + 1 && to.col == 0 {
        let start = Pos { row: c.pos.row, col: 0 };
        lemma_control(out, size, origin, c, '\r', start);
        let middle = CanvasModel { pos: start, joins: false, ..c };
        lemma_control(out + encode_scalar('\r' as u32), size, origin, middle, '\n', to);
        reveal_strlit("\r\n");
        lemma_single('\r');
        lemma_literal("\r\n"@, seq!['\r'], '\n');
        assert(out + term::ascii("\r\n") =~= out + encode_scalar('\r' as u32) + encode_scalar(
            '\n' as u32,
        ));
    } else if c.pos.row == to.row && c.pos.col < to.col {
        lemma_move_right(out, size, origin, c, to);
    } else if to != c.pos {
        lemma_move_to(out, size, origin, c, to);
    } else {
        assert(out + Seq::<u8>::empty() =~= out);
    }
}

// Text.

/// The columns that a character is drawn across.
pub open spec fn columns(c: char) -> int {
    columns_of(char_columns(c))
}

/// Whether a character is drawn at all.
pub open spec fn printable(c: char) -> bool {
    &&& c != '\u{fffd}'
    &&& !('\u{80}' <= c && c < '\u{a0}')
    &&& !(char_columns(c) is None && (c as u32) < 256)
}

proof fn lemma_print_performed(s: ScreenModel, c: char)
    requires
        printable(c),
    ensures
        s.performed(EventModel::Print(c), 0) == quiet(s.typed(c, columns(c))),
{
    reveal(ScreenModel::performed);
}

/// Whether a character would join the text before the cursor.
pub open spec fn would_join(c: CanvasModel, ch: char) -> bool {
    &&& c.joins
    &&& c.pos.col > 0
    &&& {
        let cells = c.cells[c.pos.row as int];
        let cell = cells[owner_col(cells, c.pos.col - 1)];
        cell.text.len() > 0 && !stands_apart(cell.text, ch) && cell.has_room(ch)
    }
}

/// Where a character is drawn: at the cursor, or on the next row where it does not fit.
pub open spec fn landing(c: CanvasModel, size: Size, ch: char) -> Pos {
    if c.pos.col + columns(ch) <= size.cols {
        c.pos
    } else {
        Pos { row: (c.pos.row + 1) as u16, col: 0 }
    }
}

/// Whether a row is full, so that text behind it wraps.
pub open spec fn is_full(cells: Seq<CellModel>) -> bool {
    cells[cells.len() - 1].text.len() > 0 || cells[cells.len() - 1].continuation
}

/// The rows that wrap once a character lands somewhere: the one that is left behind does,
/// where it is full.
pub open spec fn landed(c: CanvasModel, at: Pos) -> Seq<bool> {
    if at.row == c.pos.row {
        c.wraps
    } else {
        c.wraps.update(c.pos.row as int, is_full(c.cells[c.pos.row as int]))
    }
}

/// The canvas with a character drawn.
pub open spec fn inked(c: CanvasModel, at: Pos, ch: char) -> CanvasModel {
    let wide = columns(ch) > 1;
    let row = at.row as int;
    let wraps = landed(c, at);
    let drawn = row_drawn(as_row(c.cells[row], wraps[row]), at.col as int, ch, wide, c.attrs);
    CanvasModel {
        cells: c.cells.update(row, drawn.cells),
        wraps: wraps.update(row, drawn.wrapped),
        pos: Pos { row: at.row, col: (at.col + (if wide { 2int } else { 1int })) as u16 },
        joins: true,
        ..c
    }
}

/// A character drawn where the cursor is, or behind the end of a row.
proof fn lemma_ink_performed(s: ScreenModel, size: Size, ch: char)
    requires
        framed(s, size),
        1 <= columns(ch) <= size.cols,
        !would_join(canvas(s), ch),
        landing(canvas(s), size, ch).row < size.rows,
        s.grid.pos.row + 1 <= u16::MAX,
    ensures
        ({
            let t = s.typed(ch, columns(ch));
            framed(t, size) && canvas(t) == inked(canvas(s), landing(canvas(s), size, ch), ch)
        }),
{
    let grid = s.grid;
    let width = columns(ch);
    let c = canvas(s);
    let at = landing(c, size, ch);
    assert(c.cells[grid.pos.row as int] == grid.rows[grid.pos.row as int].cells);
    assert(s.active() == grid);
    assert(!(s.joins && grid.extends_cluster(ch)));
    let last = grid.current_row().cells[grid.size.cols - 1];
    let wrap = grid.pos.col > grid.size.cols - width && (last.text.len() > 0 || last.continuation);
    let ready = grid.col_wrap(width, wrap);
    lemma_landing(grid, size, width, wrap);
    let row = ready.rows[at.row as int];
    assert(row.cells == grid.rows[at.row as int].cells);
    let drawn = row_drawn(row, at.col as int, ch, width > 1, s.attrs);
    lemma_drawn_len(row, at.col as int, ch, width > 1, s.attrs);
    let wraps = landed(c, at);
    assert(wraps[at.row as int] == row.wrapped);
    let same = row_drawn(
        as_row(c.cells[at.row as int], wraps[at.row as int]),
        at.col as int,
        ch,
        width > 1,
        s.attrs,
    );
    assert(drawn.cells == same.cells && drawn.wrapped == same.wrapped);
    let t = s.typed(ch, width);
    assert(t.grid == ready.with_current_row(drawn).at(
        at.row as int,
        at.col + (if width > 1 { 2int } else { 1int }),
    ));
    assert(canvas(t).cells =~= inked(c, at, ch).cells);
    assert(canvas(t).wraps =~= inked(c, at, ch).wraps);
}

/// Where a character lands, and that the cells stay as they are.
proof fn lemma_landing(grid: GridModel, size: Size, width: int, wrap: bool)
    requires
        grid.size == size,
        grid.rows.len() == size.rows,
        grid.scroll_top == 0,
        grid.scroll_bottom == size.rows - 1,
        grid.pos.row < size.rows,
        1 <= width <= size.cols,
        grid.pos.col <= size.cols,
        grid.pos.col + width > size.cols ==> grid.pos.row + 1 < size.rows,
    ensures
        ({
            let ready = grid.col_wrap(width, wrap);
            &&& ready == (GridModel { pos: ready.pos, rows: ready.rows, ..grid })
            &&& ready.pos == (if grid.pos.col + width <= size.cols {
                grid.pos
            } else {
                Pos { row: (grid.pos.row + 1) as u16, col: 0 }
            })
            &&& ready.rows.len() == grid.rows.len()
            &&& forall|i: int|
                0 <= i < grid.rows.len() ==> (#[trigger] ready.rows[i]).cells == grid.rows[i].cells
            &&& forall|i: int|
                0 <= i < grid.rows.len() ==> (#[trigger] ready.rows[i]).wrapped == (if i
                    == grid.pos.row && grid.pos.col + width > size.cols {
                    wrap
                } else {
                    grid.rows[i].wrapped
                })
        }),
{
    if grid.pos.col + width > size.cols {
        let start = grid.at(grid.pos.row as int, 0);
        let to = Pos { row: (grid.pos.row + 1) as u16, col: 0 };
        assert(start.row_inc_scroll(1) == (GridModel { pos: to, ..grid }, 0int)) by {
            assert(start.in_scroll_region());
            assert(start.row_down(1) == (GridModel { pos: to, ..grid }));
            assert(start.row_down(1).scrolled_up(0) == start.row_down(1));
        }
    }
}

proof fn lemma_drawn_len(row: RowModel, col: int, ch: char, wide: bool, attrs: AttrsModel)
    requires
        0 <= col < row.cells.len(),
        wide ==> col + 1 < row.cells.len(),
    ensures
        row_drawn(row, col, ch, wide, attrs).cells.len() == row.cells.len(),
{
}

pub proof fn lemma_ink(out: Seq<u8>, size: Size, origin: ScreenModel, c: CanvasModel, ch: char)
    requires
        draws(out, size, origin, c),
        printable(ch),
        1 <= columns(ch) <= size.cols,
        !would_join(c, ch),
        c.pos.row < size.rows,
        landing(c, size, ch).row < size.rows,
        c.pos.row + 1 <= u16::MAX,
    ensures
        draws(out + encode_scalar(ch as u32), size, origin, inked(c, landing(c, size, ch), ch)),
{
    let code = CodeModel::Text(ch);
    let after = inked(c, landing(c, size, ch), ch);
    assert forall|s: ScreenModel| shows(s, size, c) implies {
        let p = #[trigger] s.performed(code_event(code), 0);
        p.next is None && shows(p.screen, size, after)
    } by {
        lemma_print_performed(s, ch);
        lemma_ink_performed(s, size, ch);
    }
    lemma_code(out, size, origin, c, code, after);
}

/// The canvas with a character added to the text of a cell before the cursor.
pub open spec fn fused(c: CanvasModel, col: int, ch: char) -> CanvasModel {
    let row = c.pos.row as int;
    let cells = c.cells[row];
    let wide = text_width(cells[col].text.push(ch)) > 1;
    let after = row_joined(as_row(cells, c.wraps[row]), col, ch, wide, c.attrs);
    let columns = if after.cells[col].wide { 2int } else { 1int };
    CanvasModel {
        cells: c.cells.update(row, after.cells),
        wraps: c.wraps.update(row, after.wrapped),
        pos: Pos { row: c.pos.row, col: (col + columns) as u16 },
        joins: true,
        ..c
    }
}

/// Whether a character joins the text of the cell that the cursor stands behind.
pub open spec fn can_fuse(c: CanvasModel, size: Size, col: int, ch: char) -> bool {
    let cells = c.cells[c.pos.row as int];
    let cell = cells[col];
    &&& c.pos.row < size.rows
    &&& cells.len() == size.cols
    &&& 0 <= col < size.cols
    &&& c.pos.col == col + (if cell.wide { 2int } else { 1int })
    &&& c.pos.col <= size.cols
    &&& cell.wide ==> cells[col + 1].continuation
    &&& !cell.continuation
    &&& cell.text.len() > 0
    &&& cell.has_room(ch)
    &&& columns(ch) <= size.cols
    &&& columns(ch) == 0 || c.joins && !stands_apart(cell.text, ch)
}

proof fn lemma_fuse_performed(s: ScreenModel, size: Size, col: int, ch: char)
    requires
        framed(s, size),
        can_fuse(canvas(s), size, col, ch),
    ensures
        ({
            let t = s.typed(ch, columns(ch));
            framed(t, size) && canvas(t) == fused(canvas(s), col, ch)
        }),
{
    let grid = s.grid;
    let c = canvas(s);
    let row = grid.pos.row as int;
    let cells = grid.rows[row].cells;
    assert(c.cells[row] == cells);
    assert(s.active() == grid);
    let at = Pos { row: grid.pos.row, col: col as u16 };
    assert(owner_col(cells, grid.pos.col - 1) == col);
    assert(cells[col].appended(ch).text == cells[col].text.push(ch));
    let wide = text_width(cells[col].text.push(ch)) > 1;
    assert(grid.typed(ch, columns(ch), s.attrs, s.joins) == grid.joined(at, ch, wide, s.attrs));
    let after = row_joined(grid.rows[row], col, ch, wide, s.attrs);
    let same = row_joined(as_row(cells, c.wraps[row]), col, ch, wide, s.attrs);
    assert(c.wraps[row] == grid.rows[row].wrapped);
    assert(after.cells == same.cells && after.wrapped == same.wrapped);
    assert(after.cells.len() == cells.len());
    let t = s.typed(ch, columns(ch));
    assert(canvas(t).cells =~= fused(c, col, ch).cells);
    assert(canvas(t).wraps =~= fused(c, col, ch).wraps);
}

pub proof fn lemma_fuse(out: Seq<u8>, size: Size, origin: ScreenModel, c: CanvasModel, col: int, ch: char)
    requires
        draws(out, size, origin, c),
        printable(ch),
        can_fuse(c, size, col, ch),
    ensures
        draws(out + encode_scalar(ch as u32), size, origin, fused(c, col, ch)),
{
    let code = CodeModel::Text(ch);
    let after = fused(c, col, ch);
    assert forall|s: ScreenModel| shows(s, size, c) implies {
        let p = #[trigger] s.performed(code_event(code), 0);
        p.next is None && shows(p.screen, size, after)
    } by {
        lemma_print_performed(s, ch);
        lemma_fuse_performed(s, size, col, ch);
    }
    lemma_code(out, size, origin, c, code, after);
}

// Cells.

/// The second half of a wide character.
pub open spec fn second_half() -> CellModel {
    CellModel { continuation: true, ..CellModel::blank() }
}

/// Whether the first `n` characters of some text are drawn across two columns, as they
/// are typed one after the other; the last column has no room for that.
pub open spec fn wide_after(text: Seq<char>, n: int, in_last_column: bool) -> bool
    decreases n,
{
    if n <= 1 {
        columns(text[0]) > 1
    } else if text_width(text.take(n)) > 1 {
        wide_after(text, n - 1, in_last_column) || !in_last_column
    } else {
        false
    }
}

/// Whether a character of some text joins those before it when it is typed.
pub open spec fn joins_at(text: Seq<char>, k: int, attrs: AttrsModel, cols: int) -> bool {
    let before = CellModel { text: text.take(k), ..CellModel::cleared(attrs) };
    &&& columns(text[k]) <= cols
    &&& columns(text[k]) > 0 ==> !stands_apart(text.take(k), text[k])
    &&& before.has_room(text[k])
}

/// Whether a cell is what its text becomes when it is typed at its column.
pub open spec fn retypes(cell: CellModel, col: int, cols: int) -> bool {
    if cell.continuation {
        cell == second_half()
    } else if cell.text.len() == 0 {
        !cell.wide
    } else {
        let text = cell.text;
        &&& forall|k: int| 0 <= k < text.len() ==> printable(#[trigger] text[k])
        &&& 1 <= columns(text[0])
        &&& col + columns(text[0]) <= cols
        &&& forall|k: int| 1 <= k < text.len() ==> #[trigger] joins_at(text, k, cell.attrs, cols)
        &&& cell.wide == wide_after(text, text.len() as int, col + 1 == cols)
    }
}

/// Whether text is drawn across two columns before it is complete.
pub open spec fn was_wide(text: Seq<char>, n: int, in_last_column: bool) -> bool {
    exists|k: int| 1 <= k < n && #[trigger] wide_after(text, k, in_last_column)
}

/// The first characters of a cell.
pub open spec fn partial(cell: CellModel, n: int, in_last_column: bool) -> CellModel {
    CellModel {
        text: cell.text.take(n),
        wide: wide_after(cell.text, n, in_last_column),
        continuation: false,
        attrs: cell.attrs,
    }
}

/// A canvas on which the first characters of a cell were typed.
spec fn typed_to(c: CanvasModel, d: CanvasModel, at: Pos, cell: CellModel, n: int, size: Size) -> bool {
    let col = at.col as int;
    let last = col + 1 == size.cols;
    let before = c.cells[at.row as int];
    let after = d.cells[at.row as int];
    let now = partial(cell, n, last);
    &&& d == (CanvasModel {
        cells: d.cells,
        wraps: landed(c, at),
        pos: d.pos,
        joins: true,
        ..c
    })
    &&& d.pos == (Pos { row: at.row, col: (col + (if now.wide { 2int } else { 1int })) as u16 })
    &&& d.pos.col <= size.cols
    &&& d.cells.len() == c.cells.len()
    &&& forall|i: int| 0 <= i < c.cells.len() && i != at.row ==> #[trigger] d.cells[i] == c.cells[i]
    &&& after.len() == size.cols
    &&& after[col] == now
    &&& forall|j: int|
        0 <= j < size.cols && j != col && j != col + 1 ==> #[trigger] after[j] == before[j]
    &&& !last ==> if now.wide {
        after[col + 1] == second_half()
    } else {
        &&& !after[col + 1].wide
        &&& before[col].wide || after[col + 1] == before[col + 1] || after[col + 1]
            == CellModel::cleared(cell.attrs) && was_wide(cell.text, n, last)
    }
}

/// Where a cell can be typed.
spec fn typeable(c: CanvasModel, at: Pos, cell: CellModel, size: Size) -> bool {
    let col = at.col as int;
    let cells = c.cells[at.row as int];
    &&& retypes(cell, col, size.cols as int)
    &&& !cell.continuation
    &&& cell.text.len() > 0
    &&& c.attrs == cell.attrs
    &&& c.cells.len() == size.rows
    &&& c.wraps.len() == size.rows
    &&& c.pos.row < size.rows
    &&& c.pos.row < u16::MAX
    &&& at.row < size.rows
    &&& at.col < size.cols
    &&& at == landing(c, size, cell.text[0])
    &&& !would_join(c, cell.text[0])
    &&& cells.len() == size.cols
    &&& !cells[col].continuation
    &&& col + 1 < size.cols ==> !cells[col + 1].wide && (cells[col + 1].continuation ==> cells[col].wide)
}

/// The last column holds no wide character.
pub proof fn lemma_narrow_in_last_column(text: Seq<char>, n: int)
    requires
        columns(text[0]) <= 1,
    ensures
        !wide_after(text, n, true),
    decreases n,
{
    if n > 1 {
        lemma_narrow_in_last_column(text, n - 1);
    }
}

proof fn lemma_type_first(
    out: Seq<u8>,
    size: Size,
    origin: ScreenModel,
    c: CanvasModel,
    at: Pos,
    cell: CellModel,
) -> (d: CanvasModel)
    requires
        draws(out, size, origin, c),
        typeable(c, at, cell, size),
    ensures
        draws(out + encode_utf8(cell.text.take(1)), size, origin, d),
        typed_to(c, d, at, cell, 1, size),
{
    let ch = cell.text[0];
    assert(printable(ch));
    lemma_ink(out, size, origin, c, ch);
    let d = inked(c, at, ch);
    assert(cell.text.take(1) =~= seq![ch]);
    lemma_single(ch);
    let col = at.col as int;
    let after = d.cells[at.row as int];
    assert(after[col].text =~= cell.text.take(1));
    assert(after[col] == partial(cell, 1, col + 1 == size.cols));
    assert(d.wraps =~= landed(c, at));
    d
}

proof fn lemma_type_next(
    out: Seq<u8>,
    size: Size,
    origin: ScreenModel,
    c: CanvasModel,
    d: CanvasModel,
    at: Pos,
    cell: CellModel,
    n: int,
) -> (e: CanvasModel)
    requires
        draws(out, size, origin, d),
        typeable(c, at, cell, size),
        typed_to(c, d, at, cell, n, size),
        1 <= n < cell.text.len(),
    ensures
        draws(out + encode_scalar(cell.text[n] as u32), size, origin, e),
        typed_to(c, e, at, cell, n + 1, size),
{
    let ch = cell.text[n];
    let col = at.col as int;
    let last = col + 1 == size.cols;
    let cells = d.cells[at.row as int];
    let now = partial(cell, n, last);
    assert(printable(ch));
    assert(joins_at(cell.text, n, cell.attrs, size.cols as int));
    assert(cells[col] == now);
    assert(cell.text.take(n + 1) =~= now.text.push(ch));
    if last {
        lemma_narrow_in_last_column(cell.text, n);
    }
    assert(can_fuse(d, size, col, ch));
    lemma_fuse(out, size, origin, d, col, ch);
    let e = fused(d, col, ch);
    let after = e.cells[at.row as int];
    assert(now.appended(ch).text =~= cell.text.take(n + 1));
    assert(after.len() == size.cols);
    assert(after[col] == partial(cell, n + 1, last));
    assert(e.wraps =~= d.wraps);
    if now.wide {
        assert(wide_after(cell.text, n, last));
        assert(was_wide(cell.text, n + 1, last));
    } else if was_wide(cell.text, n, last) {
        let k = choose|k: int| 1 <= k < n && #[trigger] wide_after(cell.text, k, last);
        assert(wide_after(cell.text, k, last));
        assert(was_wide(cell.text, n + 1, last));
    }
    e
}

/// The text of a cell typed, character by character.
proof fn lemma_type_cell(
    out: Seq<u8>,
    size: Size,
    origin: ScreenModel,
    c: CanvasModel,
    at: Pos,
    cell: CellModel,
    n: int,
) -> (d: CanvasModel)
    requires
        draws(out, size, origin, c),
        typeable(c, at, cell, size),
        1 <= n <= cell.text.len(),
    ensures
        draws(out + encode_utf8(cell.text.take(n)), size, origin, d),
        typed_to(c, d, at, cell, n, size),
    decreases n,
{
    if n == 1 {
        lemma_type_first(out, size, origin, c, at, cell)
    } else {
        let before = lemma_type_cell(out, size, origin, c, at, cell, n - 1);
        let written = out + encode_utf8(cell.text.take(n - 1));
        let d = lemma_type_next(written, size, origin, c, before, at, cell, n - 1);
        assert(cell.text.take(n) =~= cell.text.take(n - 1).push(cell.text[n - 1]));
        lemma_literal(cell.text.take(n), cell.text.take(n - 1), cell.text[n - 1]);
        assert(out + encode_utf8(cell.text.take(n)) =~= written + encode_scalar(
            cell.text[n - 1] as u32,
        ));
        d
    }
}

// Rows.

/// Whether a character would join the text of a cell.
pub open spec fn joinable(cell: CellModel, ch: char) -> bool {
    cell.text.len() > 0 && !stands_apart(cell.text, ch) && cell.has_room(ch)
}

/// Whether text ends a row.
pub open spec fn filled_end(cells: Seq<CellModel>) -> bool {
    cells[last_glyph_col(cells)].text.len() > 0
}

/// Whether a row that another one wraps into can be drawn from there: text ends the row
/// above, and what comes first does not join it.
pub open spec fn wraps_apart(above: Seq<CellModel>, first: CellModel) -> bool {
    let next = if first.text.len() > 0 { first.text[0] } else { ' ' };
    filled_end(above) && !joinable(above[last_glyph_col(above)], next)
}

/// Whether a row is what its cells become when they are typed.
pub open spec fn typable_row(cells: Seq<CellModel>, cols: int) -> bool {
    &&& cells.len() == cols
    &&& whole(cells)
    &&& forall|j: int| 0 <= j < cols ==> #[trigger] retypes(cells[j], j, cols)
}

/// Whether a row can be drawn on a blank one. Text that is wide at first and narrow in
/// the end leaves its attributes on the column behind it.
pub open spec fn redrawable_row(cells: Seq<CellModel>, cols: int) -> bool {
    &&& typable_row(cells, cols)
    &&& forall|j: int|
        0 <= j < cols - 1 && !cells[j].wide && #[trigger] was_wide(
            cells[j].text,
            cells[j].text.len() as int,
            false,
        ) ==> cells[j].attrs == AttrsModel::plain() || cells[j + 1] != CellModel::blank()
}

/// A cell on which nothing is drawn yet.
spec fn loose(cell: CellModel, target: CellModel) -> bool {
    &&& !cell.wide
    &&& !cell.continuation
    &&& cell == CellModel::blank() || target != CellModel::blank()
}

/// Whether no text follows a column.
spec fn no_text(cells: Seq<CellModel>, from: int, to: int) -> bool {
    forall|j: int| from <= j < to ==> (#[trigger] cells[j]).text.len() == 0
}

/// A row written as far as a column: what the pen wrote and what is still to be erased.
#[verifier::opaque]
spec fn row_so_far(
    pen: PenModel,
    c: CanvasModel,
    base: CanvasModel,
    cells: Seq<CellModel>,
    row: u16,
    k: int,
    size: Size,
    wrapping: bool,
) -> bool {
    let shown = c.cells[row as int];
    let cols = size.cols as int;
    let from = match pen.erase {
        Some((col, _)) => col as int,
        None => k,
    };
    &&& c == (CanvasModel {
        cells: c.cells,
        wraps: if wrapping && pen.pos.row == row {
            base.wraps.update(row - 1, true)
        } else {
            base.wraps
        },
        pos: pen.pos,
        attrs: pen.attrs,
        joins: c.joins,
        ..base
    })
    &&& c.cells.len() == size.rows
    &&& forall|i: int| 0 <= i < size.rows && i != row ==> #[trigger] c.cells[i] == base.cells[i]
    &&& shown.len() == cols
    &&& pen.skip == (k > 0 && cells[k - 1].wide)
    &&& pen.skip ==> k < cols && shown[k] == second_half()
    &&& forall|j: int| 0 <= j < from ==> #[trigger] shown[j] == cells[j]
    &&& forall|j: int|
        (if pen.skip { from + 1 } else { from }) <= j < cols ==> loose(#[trigger] shown[j], cells[j])
    &&& pen.erase matches Some((col, attrs)) ==> {
        &&& col < k
        &&& attrs != AttrsModel::plain()
        &&& !pen.skip
        &&& forall|j: int| col <= j < k ==> #[trigger] cells[j] == CellModel::cleared(attrs)
    }
    &&& pen.pos.row <= row
    &&& pen.pos.col <= cols
    &&& pen.pos.row < row ==> {
        &&& pen.pos == base.pos
        &&& c.cells == base.cells
        &&& no_text(cells, 0, k)
        &&& pen.last is None
        &&& !(wrapping && cells[0] == CellModel::blank())
    }
    &&& pen.pos.row == row ==> {
        &&& pen.pos.col <= (if pen.skip { k + 1 } else { k })
        &&& no_text(cells, pen.pos.col as int, k)
        &&& pen.pos.col < cols ==> !cells[pen.pos.col as int].continuation
    }
    &&& c.joins ==> match pen.last {
        Some(text) => {
            &&& pen.pos.row == row
            &&& 0 < pen.pos.col
            &&& shown[owner_col(shown, pen.pos.col - 1)].text == text
        },
        None => pen.pos.row < row && base.joins,
    }
}

/// What is known where a row starts.
spec fn row_starts(base: CanvasModel, above: Seq<CellModel>, cells: Seq<CellModel>, row: u16, size: Size, wrapping: bool) -> bool {
    let cols = size.cols as int;
    &&& row < size.rows
    &&& redrawable_row(cells, cols)
    &&& columns(' ') == 1
    &&& printable(' ')
    &&& base.cells.len() == size.rows
    &&& base.wraps.len() == size.rows
    &&& !base.wraps[row as int]
    &&& base.cells[row as int] == blank_cells(size.cols as nat)
    &&& base.pos.col <= cols
    &&& if row == 0 {
        base.pos == (Pos { row: 0, col: 0 }) && !base.joins && !wrapping
    } else {
        &&& base.pos.row < row
        &&& base.cells[row - 1] == above
        &&& above.len() == cols
        &&& base.pos.row + 1 == row ==> {
            &&& no_text(above, base.pos.col as int, cols)
            &&& base.pos.col < cols ==> !above[base.pos.col as int].continuation
        }
        &&& filled_end(above) ==> base.pos == (Pos { row: (row - 1) as u16, col: size.cols })
        &&& whole(above)
        &&& wrapping ==> wraps_apart(above, cells[0])
    }
}

/// A blank typed behind the end of the row above, and the cursor put back before it.
proof fn lemma_step_over_wrap(
    out: Seq<u8>,
    size: Size,
    origin: ScreenModel,
    c: CanvasModel,
    above: Seq<CellModel>,
    row: u16,
) -> (d: CanvasModel)
    requires
        draws(out, size, origin, c),
        0 < row < size.rows,
        columns(' ') == 1,
        printable(' '),
        size.cols > 0,
        c.cells.len() == size.rows,
        c.pos == (Pos { row: (row - 1) as u16, col: size.cols }),
        c.cells[row - 1] == above,
        above.len() == size.cols,
        c.joins ==> !joinable(above[last_glyph_col(above)], ' '),
        filled_end(above),
        c.wraps.len() == size.rows,
        c.cells[row as int].len() == size.cols,
        !c.cells[row as int][0].wide,
        !c.cells[row as int][0].continuation,
    ensures
        draws(out + step_over_wrap(), size, origin, d),
        d == (CanvasModel {
            cells: c.cells.update(
                row as int,
                c.cells[row as int].update(0, CellModel::glyph(' ', false, c.attrs)),
            ),
            wraps: c.wraps.update(row - 1, true),
            pos: Pos { row, col: 0 },
            joins: false,
            ..c
        }),
{
    let cols = size.cols as int;
    assert(owner_col(above, cols - 1) == last_glyph_col(above));
    assert(!would_join(c, ' '));
    let at = Pos { row, col: 0 };
    assert(landing(c, size, ' ') == at);
    lemma_ink(out, size, origin, c, ' ');
    let inked_c = inked(c, at, ' ');
    assert(inked_c.cells =~= c.cells.update(
        row as int,
        c.cells[row as int].update(0, CellModel::glyph(' ', false, c.attrs)),
    )) by {
        assert(row_drawn(
            as_row(c.cells[row as int], landed(c, at)[row as int]),
            0,
            ' ',
            false,
            c.attrs,
        ).cells =~= c.cells[row as int].update(0, CellModel::glyph(' ', false, c.attrs)));
    }
    assert(is_full(above));
    assert(inked_c.wraps =~= c.wraps.update(row - 1, true));
    lemma_control(out + encode_scalar(' ' as u32), size, origin, inked_c, '\x08', at);
    reveal_strlit(" ");
    reveal_strlit("\x08");
    assert(" "@ =~= seq![' ']);
    assert("\x08"@ =~= seq!['\x08']);
    lemma_single(' ');
    lemma_single('\x08');
    assert(out + step_over_wrap() =~= out + encode_scalar(' ' as u32) + encode_scalar(
        '\x08' as u32,
    ));
    CanvasModel { pos: at, joins: false, ..inked_c }
}

/// What is still to be erased on a row erased: up to a column, or to the end of the row.
#[verifier::spinoff_prover]
proof fn lemma_flush(
    pen: PenModel,
    c: CanvasModel,
    base: CanvasModel,
    above: Seq<CellModel>,
    cells: Seq<CellModel>,
    row: u16,
    k: int,
    size: Size,
    origin: ScreenModel,
    wrapping: bool,
    end: Option<u16>,
) -> (d: CanvasModel)
    requires
        draws(pen.out, size, origin, c),
        row_starts(base, above, cells, row, size, wrapping),
        row_so_far(pen, c, base, cells, row, k, size, wrapping),
        0 <= k <= size.cols,
        match end {
            Some(end) => end == k,
            None => k == size.cols,
        },
    ensures
        ({
            let after = pen.flushed(row, end, size.cols as int, wrapping);
            &&& draws(after.out, size, origin, d)
            &&& row_so_far(after, d, base, cells, row, k, size, wrapping)
            &&& after.erase is None
        }),
{
    reveal(row_so_far);
    match pen.erase {
        None => c,
        Some((col, attrs)) => {
            let cols = size.cols as int;
            let to = Pos { row, col };
            let moved = lemma_flush_move(pen, c, base, above, cells, row, k, size, origin, wrapping);
            let waits = wrapping && pen.waits_to_wrap(row, cols);
            let blanks = if col > 0 { encode_utf8(spaces(col as int)) } else { step_over_wrap() };
            let out1 = pen.out + (if waits { blanks } else { term::move_from_to(pen.pos, to) });
            lemma_recolor(out1, size, origin, moved, attrs);
            let colored = CanvasModel { attrs, ..moved };
            let out2 = out1 + attrs_diff(attrs, moved.attrs);
            let d = wiped(colored, col as int, k);
            lemma_wiped_narrow(colored, col as int, k);
            match end {
                Some(end) => {
                    lemma_erase_char(out2, size, origin, colored, k - col);
                },
                None => {
                    lemma_erase_to_end(out2, size, origin, colored);
                },
            }
            let after = pen.flushed(row, end, cols, wrapping);
            let shown = d.cells[row as int];
            assert forall|j: int| 0 <= j < k implies #[trigger] shown[j] == cells[j] by {
                if j < col {
                    assert(moved.cells[row as int][j] == c.cells[row as int][j]);
                }
            }
            assert forall|j: int| k <= j < cols implies loose(#[trigger] shown[j], cells[j]) by {
                assert(moved.cells[row as int][j] == c.cells[row as int][j]);
                assert(loose(c.cells[row as int][j], cells[j]));
            }
            d
        },
    }
}

/// The cursor put where erasing starts.
#[verifier::spinoff_prover]
proof fn lemma_flush_move(
    pen: PenModel,
    c: CanvasModel,
    base: CanvasModel,
    above: Seq<CellModel>,
    cells: Seq<CellModel>,
    row: u16,
    k: int,
    size: Size,
    origin: ScreenModel,
    wrapping: bool,
) -> (d: CanvasModel)
    requires
        draws(pen.out, size, origin, c),
        row_starts(base, above, cells, row, size, wrapping),
        row_so_far(pen, c, base, cells, row, k, size, wrapping),
        0 <= k <= size.cols,
        pen.erase is Some,
    ensures
        ({
            let (col, attrs) = pen.erase.unwrap();
            let to = Pos { row, col };
            let waits = wrapping && pen.waits_to_wrap(row, size.cols as int);
            let blanks = if col > 0 { encode_utf8(spaces(col as int)) } else { step_over_wrap() };
            &&& draws(
                pen.out + (if waits { blanks } else { term::move_from_to(pen.pos, to) }),
                size,
                origin,
                d,
            )
            &&& d == (CanvasModel {
                cells: d.cells,
                wraps: if wrapping { base.wraps.update(row - 1, true) } else { base.wraps },
                pos: to,
                joins: d.joins,
                ..c
            })
            &&& d.cells.len() == c.cells.len()
            &&& forall|i: int| 0 <= i < size.rows && i != row ==> #[trigger] d.cells[i] == c.cells[i]
            &&& d.cells[row as int].len() == size.cols
            &&& forall|j: int|
                0 <= j < size.cols && (j < col || k <= j) ==> #[trigger] d.cells[row as int][j]
                    == c.cells[row as int][j]
            &&& narrow_between(d.cells[row as int], col as int, size.cols as int)
        }),
{
    reveal(row_so_far);
    let cols = size.cols as int;
    let (col, attrs) = pen.erase.unwrap();
    let to = Pos { row, col };
    let shown = c.cells[row as int];
    assert forall|j: int| col <= j < cols implies !(#[trigger] shown[j]).wide
        && !shown[j].continuation by {
        assert(loose(shown[j], cells[j]));
    }
    if wrapping && pen.waits_to_wrap(row, cols) {
        assert(c.cells == base.cells);
        if col > 0 {
            assert(shown[0] == cells[0]);
            assert(cells[0] == CellModel::blank());
        }
        assert(cells[col as int] == CellModel::cleared(attrs));
        lemma_step_over_wrap(pen.out, size, origin, c, above, row)
    } else {
        lemma_move_from_to(pen.out, size, origin, c, to);
        CanvasModel { pos: to, joins: c.joins && to == c.pos, ..c }
    }
}

/// The cursor put where a cell is drawn, or left where its text wraps from.
#[verifier::spinoff_prover]
proof fn lemma_draw_place(
    pen: PenModel,
    c: CanvasModel,
    base: CanvasModel,
    above: Seq<CellModel>,
    cells: Seq<CellModel>,
    row: u16,
    k: int,
    size: Size,
    origin: ScreenModel,
    wrapping: bool,
) -> (d: CanvasModel)
    requires
        draws(pen.out, size, origin, c),
        row_starts(base, above, cells, row, size, wrapping),
        row_so_far(pen, c, base, cells, row, k, size, wrapping),
        0 <= k < size.cols,
        pen.erase is None,
        !pen.skip,
        cells[k].text.len() > 0,
    ensures
        ({
            let cell = cells[k];
            let cols = size.cols as int;
            let to = Pos { row, col: k as u16 };
            let wraps_here = wrapping && pen.pos.row + 1 == row && pen.pos.col >= cols - (if cell.wide {
                1int
            } else {
                0int
            }) && k == 0;
            let out1 = pen.out + (if to == pen.pos || wraps_here {
                Seq::empty()
            } else {
                term::move_from_to(pen.pos, to)
            });
            let out2 = out1 + attrs_diff(cell.attrs, pen.attrs);
            let joins = match pen.last {
                Some(last) => !stands_apart(last, cell.text[0]),
                None => false,
            };
            let out3 = out2 + (if joins { term::move_to(to) } else { Seq::empty() });
            &&& draws(out3, size, origin, d)
            &&& d == (CanvasModel { pos: d.pos, attrs: cell.attrs, joins: d.joins, ..c })
            &&& typeable(d, to, cell, size)
            &&& landed(d, to) == (if wrapping {
                base.wraps.update(row - 1, true)
            } else {
                base.wraps
            })
        }),
{
    reveal(row_so_far);
    let cell = cells[k];
    let cols = size.cols as int;
    let to = Pos { row, col: k as u16 };
    let shown = c.cells[row as int];
    assert(retypes(cells[k], k, cols));
    assert(!cell.continuation);
    assert(loose(shown[k], cells[k]));
    if k + 1 < cols {
        assert(loose(shown[k + 1], cells[k + 1]));
    }
    let wraps_here = wrapping && pen.pos.row + 1 == row && pen.pos.col >= cols - (if cell.wide {
        1int
    } else {
        0int
    }) && k == 0;
    if wrapping && pen.pos.row < row {
        if k > 0 {
            assert(shown[0] == cells[0]);
            assert(cells[0] == CellModel::blank());
        }
        assert(wraps_here);
        assert(is_full(above));
    }
    let stays = to == pen.pos || wraps_here;
    let out1 = pen.out + (if stays { Seq::empty() } else { term::move_from_to(pen.pos, to) });
    let placed = if stays { c } else { CanvasModel { pos: to, joins: false, ..c } };
    if stays {
        assert(out1 =~= pen.out);
    } else {
        lemma_move_from_to(pen.out, size, origin, c, to);
    }
    lemma_recolor(out1, size, origin, placed, cell.attrs);
    let out2 = out1 + attrs_diff(cell.attrs, pen.attrs);
    let colored = CanvasModel { attrs: cell.attrs, ..placed };
    let joins = match pen.last {
        Some(last) => !stands_apart(last, cell.text[0]),
        None => false,
    };
    if joins {
        lemma_move_to(out2, size, origin, colored, to);
        CanvasModel { pos: to, joins: false, ..colored }
    } else {
        assert(out2 + Seq::<u8>::empty() =~= out2);
        if to == pen.pos {
            assert(!would_join(colored, cell.text[0]));
        } else if wraps_here {
            lemma_waits_apart(colored, base, above, cells, row, size);
        }
        colored
    }
}

/// What wraps into a row does not join what ends the row above.
proof fn lemma_waits_apart(
    c: CanvasModel,
    base: CanvasModel,
    above: Seq<CellModel>,
    cells: Seq<CellModel>,
    row: u16,
    size: Size,
)
    requires
        row_starts(base, above, cells, row, size, true),
        size.cols > 0,
        c.cells == base.cells,
        c.pos == base.pos,
        base.pos.row + 1 == row,
        cells[0].text.len() > 0,
        base.pos.col >= size.cols - (if cells[0].wide { 1int } else { 0int }),
    ensures
        !would_join(c, cells[0].text[0]),
        landing(c, size, cells[0].text[0]) == (Pos { row, col: 0 }),
{
    let cols = size.cols as int;
    let next = cells[0].text[0];
    assert(retypes(cells[0], 0, cols));
    assert(wraps_apart(above, cells[0]));
    assert(base.pos.col == cols);
    assert(owner_col(above, cols - 1) == last_glyph_col(above));
}

/// Nothing is drawn yet behind a cell that was typed.
proof fn lemma_typed_loose(
    placed: CanvasModel,
    d: CanvasModel,
    cells: Seq<CellModel>,
    row: u16,
    k: int,
    size: Size,
)
    requires
        redrawable_row(cells, size.cols as int),
        0 <= k < size.cols,
        typed_to(
            placed,
            d,
            Pos { row, col: k as u16 },
            cells[k],
            cells[k].text.len() as int,
            size,
        ),
        retypes(cells[k], k, size.cols as int),
        cells[k].text.len() > 0,
        forall|j: int|
            k <= j < size.cols ==> loose(#[trigger] placed.cells[row as int][j], cells[j]),
    ensures
        forall|j: int|
            (if cells[k].wide { k + 2 } else { k + 1 }) <= j < size.cols ==> loose(
                #[trigger] d.cells[row as int][j],
                cells[j],
            ),
{
    let cell = cells[k];
    let n = cell.text.len() as int;
    let before = placed.cells[row as int];
    let after = d.cells[row as int];
    assert(cell.text.take(n) =~= cell.text);
    assert forall|j: int|
        (if cell.wide { k + 2 } else { k + 1 }) <= j < size.cols implies loose(
        #[trigger] after[j],
        cells[j],
    ) by {
        assert(loose(before[j], cells[j]));
        if j == k + 1 {
            assert(loose(before[k], cells[k]));
            if after[j] != before[j] {
                assert(was_wide(cell.text, n, false));
            }
        }
    }
}

/// The text of a cell drawn.
#[verifier::spinoff_prover]
proof fn lemma_draw(
    pen: PenModel,
    c: CanvasModel,
    base: CanvasModel,
    above: Seq<CellModel>,
    cells: Seq<CellModel>,
    row: u16,
    k: int,
    size: Size,
    origin: ScreenModel,
    wrapping: bool,
) -> (d: CanvasModel)
    requires
        draws(pen.out, size, origin, c),
        row_starts(base, above, cells, row, size, wrapping),
        row_so_far(pen, c, base, cells, row, k, size, wrapping),
        0 <= k < size.cols,
        pen.erase is None,
        !pen.skip,
        cells[k].text.len() > 0,
    ensures
        ({
            let skipping = PenModel { skip: cells[k].wide, ..pen };
            let after = skipping.draw(cells[k], row, k as u16, size.cols as int, wrapping);
            &&& draws(after.out, size, origin, d)
            &&& row_so_far(after, d, base, cells, row, k + 1, size, wrapping)
        }),
{
    reveal(row_so_far);
    let cell = cells[k];
    let cols = size.cols as int;
    let to = Pos { row, col: k as u16 };
    let skipping = PenModel { skip: cell.wide, ..pen };
    let after = skipping.draw(cell, row, k as u16, cols, wrapping);
    let placed = lemma_draw_place(pen, c, base, above, cells, row, k, size, origin, wrapping);
    let n = cell.text.len() as int;
    assert(cell.text.take(n) =~= cell.text);
    let wraps_here = wrapping && pen.pos.row + 1 == row && pen.pos.col >= cols - (if cell.wide {
        1int
    } else {
        0int
    }) && k == 0;
    let out1 = pen.out + (if to == pen.pos || wraps_here {
        Seq::empty()
    } else {
        term::move_from_to(pen.pos, to)
    });
    let joins = match pen.last {
        Some(last) => !stands_apart(last, cell.text[0]),
        None => false,
    };
    let out2 = out1 + attrs_diff(cell.attrs, pen.attrs);
    let before = out2 + (if joins { term::move_to(to) } else { Seq::empty() });
    assert(after.out =~= before + encode_utf8(cell.text));
    let d = lemma_type_cell(before, size, origin, placed, to, cell, n);
    let last = k + 1 == cols;
    assert(retypes(cells[k], k, cols));
    assert(partial(cell, n, last) == cell);
    let shown = d.cells[row as int];
    let old_shown = c.cells[row as int];
    assert forall|j: int| 0 <= j < k + 1 implies #[trigger] shown[j] == cells[j] by {
        if j < k {
            assert(old_shown[j] == cells[j]);
        }
    }
    lemma_typed_loose(placed, d, cells, row, k, size);
    lemma_glyph_follows(cells, k);
    assert(after.pos == d.pos);
    assert(no_text(cells, after.pos.col as int, k + 1));
    assert(after.attrs == d.attrs);
    assert(after.last == Some(cell.text));
    assert(shown[owner_col(shown, after.pos.col - 1)].text == cell.text);
    assert(after.erase is None && after.skip == cell.wide);
    assert(d == (CanvasModel {
        cells: d.cells,
        wraps: if wrapping { base.wraps.update(row - 1, true) } else { base.wraps },
        pos: after.pos,
        attrs: after.attrs,
        joins: d.joins,
        ..base
    }));
    assert forall|i: int| 0 <= i < size.rows && i != row implies #[trigger] d.cells[i]
        == base.cells[i] by {
        assert(c.cells[i] == base.cells[i]);
    }
    assert(after.pos.row == row ==> {
        &&& after.pos.col <= (if after.skip { k + 2 } else { k + 1 })
        &&& after.pos.col < cols ==> !cells[after.pos.col as int].continuation
    });
    d
}

/// What follows a character is no second half.
pub proof fn lemma_glyph_follows(cells: Seq<CellModel>, k: int)
    requires
        whole(cells),
        0 <= k < cells.len(),
    ensures
        !cells[k].wide && k + 1 < cells.len() ==> !cells[k + 1].continuation,
        cells[k].wide ==> k + 1 < cells.len() && cells[k + 1].continuation,
        cells[k].wide && k + 2 < cells.len() ==> !cells[k + 2].continuation,
{
    reveal(whole);
    assert(whole_at(cells, k));
    if k + 1 < cells.len() {
        assert(whole_at(cells, k + 1));
    }
    if k + 2 < cells.len() {
        assert(whole_at(cells, k + 2));
    }
}

/// One more column written.
#[verifier::spinoff_prover]
proof fn lemma_step(
    pen: PenModel,
    c: CanvasModel,
    base: CanvasModel,
    above: Seq<CellModel>,
    cells: Seq<CellModel>,
    row: u16,
    k: int,
    size: Size,
    origin: ScreenModel,
    wrapping: bool,
) -> (d: CanvasModel)
    requires
        draws(pen.out, size, origin, c),
        row_starts(base, above, cells, row, size, wrapping),
        row_so_far(pen, c, base, cells, row, k, size, wrapping),
        0 <= k < size.cols,
    ensures
        ({
            let cols = size.cols as int;
            let after = pen.step(cells[k], CellModel::blank(), row, k as u16, cols, wrapping);
            &&& draws(after.out, size, origin, d)
            &&& row_so_far(after, d, base, cells, row, k + 1, size, wrapping)
        }),
{
    reveal(row_so_far);
    let cols = size.cols as int;
    let cell = cells[k];
    let after = pen.step(cell, CellModel::blank(), row, k as u16, cols, wrapping);
    assert(retypes(cells[k], k, cols));
    lemma_glyph_follows(cells, k);
    if k > 0 {
        assert(retypes(cells[k - 1], k - 1, cols));
        lemma_glyph_follows(cells, k - 1);
    } else {
        reveal(whole);
        assert(whole_at(cells, 0));
    }
    if pen.skip {
        let shown = c.cells[row as int];
        assert forall|j: int| 0 <= j < k + 1 implies #[trigger] shown[j] == cells[j] by {}
        assert(no_text(cells, pen.pos.col as int, k + 1));
        c
    } else {
        let ends_erasing = match pen.erase {
            Some((_, attrs)) => cell.text.len() > 0 || cell.attrs != attrs,
            None => false,
        };
        let skipping = PenModel { skip: cell.wide, ..pen };
        let flushed = pen.flushed(row, Some(k as u16), cols, wrapping);
        assert(skipping.flushed(row, Some(k as u16), cols, wrapping) == (PenModel {
            skip: cell.wide,
            ..flushed
        }));
        let ready = if ends_erasing { flushed } else { pen };
        let d = if ends_erasing {
            lemma_flush(
                pen,
                c,
                base,
                above,
                cells,
                row,
                k,
                size,
                origin,
                wrapping,
                Some(k as u16),
            )
        } else {
            c
        };
        assert(!ready.skip);
        if cell.text.len() > 0 {
            lemma_draw(ready, d, base, above, cells, row, k, size, origin, wrapping)
        } else {
            assert(cell.text =~= Seq::<char>::empty());
            assert(cell == CellModel::cleared(cell.attrs));
            lemma_empty_step(ready, d, base, cells, row, k, size, wrapping);
            d
        }
    }
}

/// A column without text, which is erased later.
proof fn lemma_empty_step(
    ready: PenModel,
    d: CanvasModel,
    base: CanvasModel,
    cells: Seq<CellModel>,
    row: u16,
    k: int,
    size: Size,
    wrapping: bool,
)
    requires
        row_so_far(ready, d, base, cells, row, k, size, wrapping),
        0 <= k < size.cols,
        !ready.skip,
        cells[k] == CellModel::cleared(cells[k].attrs),
        ready.erase matches Some((_, attrs)) ==> cells[k].attrs == attrs,
        wrapping && cells[0] == CellModel::blank() && k == 0 ==> ready.pos.row == row,
    ensures
        ({
            let after = if cells[k] != CellModel::blank() && ready.erase is None {
                PenModel { erase: Some((k as u16, cells[k].attrs)), ..ready }
            } else {
                ready
            };
            row_so_far(after, d, base, cells, row, k + 1, size, wrapping)
        }),
{
    reveal(row_so_far);
    let shown = d.cells[row as int];
    assert(loose(shown[k], cells[k]));
    let after = if cells[k] != CellModel::blank() && ready.erase is None {
        PenModel { erase: Some((k as u16, cells[k].attrs)), ..ready }
    } else {
        ready
    };
    assert(no_text(cells, ready.pos.col as int, k + 1) || ready.pos.row < row);
    assert(ready.pos.row < row ==> no_text(cells, 0, k + 1));
}

/// The columns of a row written, one after the other.
proof fn lemma_steps(
    pen: PenModel,
    c: CanvasModel,
    base: CanvasModel,
    above: Seq<CellModel>,
    cells: Seq<CellModel>,
    row: u16,
    k: int,
    size: Size,
    origin: ScreenModel,
    wrapping: bool,
) -> (d: CanvasModel)
    requires
        draws(pen.out, size, origin, c),
        row_starts(base, above, cells, row, size, wrapping),
        row_so_far(pen, c, base, cells, row, 0, size, wrapping),
        0 <= k <= size.cols,
    ensures
        ({
            let blanks = blank_cells(cells.len());
            let after = pen.steps(cells, blanks, row, 0, k, wrapping);
            &&& draws(after.out, size, origin, d)
            &&& row_so_far(after, d, base, cells, row, k, size, wrapping)
        }),
    decreases k,
{
    if k == 0 {
        c
    } else {
        let before = lemma_steps(pen, c, base, above, cells, row, k - 1, size, origin, wrapping);
        let blanks = blank_cells(cells.len());
        let so_far = pen.steps(cells, blanks, row, 0, k - 1, wrapping);
        assert(blanks[k - 1] == CellModel::blank());
        lemma_step(so_far, before, base, above, cells, row, k - 1, size, origin, wrapping)
    }
}

/// What is known before the first column is written.
proof fn lemma_row_start(
    pen: PenModel,
    base: CanvasModel,
    above: Seq<CellModel>,
    cells: Seq<CellModel>,
    row: u16,
    size: Size,
    origin: ScreenModel,
    wrapping: bool,
) -> (c: CanvasModel)
    requires
        draws(pen.out, size, origin, base),
        row_starts(base, above, cells, row, size, wrapping),
        size.cols > 0,
        pen == (PenModel {
            out: pen.out,
            pos: base.pos,
            attrs: base.attrs,
            erase: None,
            last: None,
            skip: false,
        }),
    ensures
        ({
            let ready = if wrapping && cells[0] == CellModel::blank() {
                pen.wrapped_onto_blank(row)
            } else {
                pen
            };
            &&& draws(ready.out, size, origin, c)
            &&& row_so_far(ready, c, base, cells, row, 0, size, wrapping)
        }),
{
    reveal(row_so_far);
    reveal(whole);
    assert(whole_at(cells, 0));
    if wrapping && cells[0] == CellModel::blank() {
        lemma_wrapped_onto_blank(pen.out, base, above, cells, row, size, origin)
    } else {
        base
    }
}

/// A row written on a blank one.
#[verifier::spinoff_prover]
proof fn lemma_row(
    out: Seq<u8>,
    base: CanvasModel,
    above: Seq<CellModel>,
    cells: Seq<CellModel>,
    row: u16,
    size: Size,
    origin: ScreenModel,
    wrapping: bool,
) -> (d: CanvasModel)
    requires
        draws(out, size, origin, base),
        row_starts(base, above, cells, row, size, wrapping),
        size.cols > 0,
    ensures
        ({
            let after = row_formatted(
                out,
                cells,
                0,
                size.cols as int,
                row,
                wrapping,
                Some(base.pos),
                Some(base.attrs),
            );
            &&& draws(after.out, size, origin, d)
            &&& row_so_far(after, d, base, cells, row, size.cols as int, size, wrapping)
            &&& after.erase is None
        }),
{
    let cols = size.cols as int;
    let pen = PenModel {
        out,
        pos: base.pos,
        attrs: base.attrs,
        erase: None,
        last: None,
        skip: false,
    };
    let starts_blank = wrapping && cells[0] == CellModel::blank();
    let ready = if starts_blank { pen.wrapped_onto_blank(row) } else { pen };
    let c = lemma_row_start(pen, base, above, cells, row, size, origin, wrapping);
    let written = lemma_steps(ready, c, base, above, cells, row, cols, size, origin, wrapping);
    let blanks = blank_cells(cells.len());
    let stepped = ready.steps(cells, blanks, row, 0, cols, wrapping);
    lemma_flush(
        stepped,
        written,
        base,
        above,
        cells,
        row,
        cols,
        size,
        origin,
        wrapping,
        None,
    )
}

/// A blank at the start of a row into which the row above wraps.
proof fn lemma_wrapped_onto_blank(
    out: Seq<u8>,
    base: CanvasModel,
    above: Seq<CellModel>,
    cells: Seq<CellModel>,
    row: u16,
    size: Size,
    origin: ScreenModel,
) -> (d: CanvasModel)
    requires
        draws(out, size, origin, base),
        row_starts(base, above, cells, row, size, true),
        cells[0] == CellModel::blank(),
        size.cols > 0,
    ensures
        ({
            let pen = PenModel {
                out,
                pos: base.pos,
                attrs: base.attrs,
                erase: None,
                last: None,
                skip: false,
            };
            draws(pen.wrapped_onto_blank(row).out, size, origin, d)
        }),
        d == (CanvasModel {
            wraps: base.wraps.update(row - 1, true),
            pos: Pos { row, col: 0 },
            attrs: AttrsModel::plain(),
            joins: false,
            ..base
        }),
{
    let plain = AttrsModel::plain();
    assert(wraps_apart(above, cells[0]));
    lemma_recolor(out, size, origin, base, plain);
    let colored = CanvasModel { attrs: plain, ..base };
    let out1 = out + attrs_diff(plain, base.attrs);
    let over = lemma_step_over_wrap(out1, size, origin, colored, above, row);
    let out2 = out1 + step_over_wrap();
    lemma_erase_char(out2, size, origin, over, 1);
    let d = wiped(over, 0, 1);
    lemma_wiped_narrow(over, 0, 1);
    let blank = blank_cells(size.cols as nat);
    assert(d.cells[row as int] =~= blank);
    assert(d.cells =~= base.cells);
    d
}

// The screen.

/// The rows written so far on a blank screen.
spec fn rows_so_far(
    w: WrittenModel,
    c: CanvasModel,
    start: CanvasModel,
    rows: Seq<RowModel>,
    n: int,
    size: Size,
) -> bool {
    let cols = size.cols as int;
    &&& c == (CanvasModel {
        cells: c.cells,
        wraps: c.wraps,
        pos: w.pos,
        attrs: w.attrs,
        joins: c.joins,
        ..start
    })
    &&& c.cells.len() == size.rows
    &&& c.wraps.len() == size.rows
    &&& forall|i: int| 0 <= i < n ==> #[trigger] c.cells[i] == rows[i].cells
    &&& forall|i: int| n <= i < size.rows ==> #[trigger] c.cells[i] == blank_cells(size.cols as nat)
    &&& forall|i: int|
        0 <= i < size.rows ==> #[trigger] c.wraps[i] == (i < n - 1 && rows[i].wrapped)
    &&& w.wrapping == (n > 0 && rows[n - 1].wrapped)
    &&& w.pos.col <= cols
    &&& if n == 0 {
        w.pos == (Pos { row: 0, col: 0 }) && !c.joins
    } else {
        let last = rows[w.pos.row as int].cells;
        &&& w.pos.row < n
        &&& no_text(last, w.pos.col as int, cols)
        &&& w.pos.col < cols ==> !last[w.pos.col as int].continuation
        &&& forall|p: int| w.pos.row < p < n ==> no_text(#[trigger] rows[p].cells, 0, cols)
    }
}

/// Whether rows can be written out and drawn again.
pub open spec fn redrawable_rows(rows: Seq<RowModel>, cols: int) -> bool {
    &&& forall|i: int| 0 <= i < rows.len() ==> redrawable_row(#[trigger] rows[i].cells, cols)
    &&& forall|i: int|
        0 <= i < rows.len() - 1 && #[trigger] rows[i].wrapped ==> wraps_apart(
            rows[i].cells,
            rows[i + 1].cells[0],
        )
    &&& rows.len() > 0 ==> !rows.last().wrapped
}

/// Text that ends a row leaves the cursor behind the row.
proof fn lemma_behind_filled_row(cells: Seq<CellModel>, col: int)
    requires
        cells.len() > 0,
        filled_end(cells),
        0 <= col <= cells.len(),
        no_text(cells, col, cells.len() as int),
        col < cells.len() ==> !cells[col].continuation,
    ensures
        col == cells.len(),
{
    let last = last_glyph_col(cells);
    if col <= last {
        assert(cells[last].text.len() == 0);
    }
}

#[verifier::spinoff_prover]
proof fn lemma_next_row(
    w: WrittenModel,
    c: CanvasModel,
    start: CanvasModel,
    rows: Seq<RowModel>,
    n: int,
    size: Size,
    origin: ScreenModel,
) -> (d: CanvasModel)
    requires
        draws(w.out, size, origin, c),
        rows_so_far(w, c, start, rows, n, size),
        redrawable_rows(rows, size.cols as int),
        rows.len() == size.rows,
        0 <= n < size.rows,
        size.cols > 0,
    ensures
        ({
            let pen = row_formatted(
                w.out,
                rows[n].cells,
                0,
                size.cols as int,
                n as u16,
                w.wrapping,
                Some(w.pos),
                Some(w.attrs),
            );
            let after = WrittenModel {
                out: pen.out,
                pos: pen.pos,
                attrs: pen.attrs,
                wrapping: rows[n].wrapped,
                prev_wrapping: false,
            };
            &&& draws(after.out, size, origin, d)
            &&& rows_so_far(after, d, start, rows, n + 1, size)
        }),
{
    let cols = size.cols as int;
    let row = n as u16;
    let cells = rows[n].cells;
    let above = if n > 0 { rows[n - 1].cells } else { Seq::empty() };
    assert(redrawable_row(rows[n].cells, cols));
    if n > 0 {
        assert(redrawable_row(rows[n - 1].cells, cols));
        assert(c.cells[n - 1] == rows[n - 1].cells);
        if filled_end(above) {
            if w.pos.row < n - 1 {
                assert(no_text(rows[n - 1].cells, 0, cols));
                assert(above[last_glyph_col(above)].text.len() == 0);
            }
            lemma_behind_filled_row(above, w.pos.col as int);
        }
        if w.wrapping {
            assert(rows[n - 1].wrapped);
        }
    }
    assert(row_starts(c, above, cells, row, size, w.wrapping));
    let d = lemma_row(w.out, c, above, cells, row, size, origin, w.wrapping);
    let pen = row_formatted(
        w.out,
        cells,
        0,
        cols,
        row,
        w.wrapping,
        Some(w.pos),
        Some(w.attrs),
    );
    reveal(row_so_far);
    assert(d.cells[n] =~= cells);
    if w.wrapping && pen.pos.row < row {
        assert(d.cells[n][0] == cells[0]);
        assert(c.cells[n] == blank_cells(size.cols as nat));
    }
    assert forall|i: int| 0 <= i < size.rows implies #[trigger] d.wraps[i] == (i < n
        && rows[i].wrapped) by {
        assert(c.wraps[i] == (i < n - 1 && rows[i].wrapped));
    }
    assert forall|i: int| 0 <= i < n + 1 implies #[trigger] d.cells[i] == rows[i].cells by {
        if i < n {
            assert(c.cells[i] == rows[i].cells);
        }
    }
    assert forall|i: int| n + 1 <= i < size.rows implies #[trigger] d.cells[i] == blank_cells(
        size.cols as nat,
    ) by {
        assert(c.cells[i] == blank_cells(size.cols as nat));
    }
    d
}

proof fn lemma_rows(
    start: WrittenModel,
    c: CanvasModel,
    rows: Seq<RowModel>,
    n: int,
    size: Size,
    origin: ScreenModel,
) -> (d: CanvasModel)
    requires
        draws(start.out, size, origin, c),
        rows_so_far(start, c, c, rows, 0, size),
        redrawable_rows(rows, size.cols as int),
        rows.len() == size.rows,
        0 <= n <= size.rows,
        size.cols > 0,
    ensures
        ({
            let after = rows_formatted(start, rows, n, size.cols as int);
            &&& draws(after.out, size, origin, d)
            &&& rows_so_far(after, d, c, rows, n, size)
        }),
    decreases n,
{
    if n == 0 {
        c
    } else {
        let before = lemma_rows(start, c, rows, n - 1, size, origin);
        let so_far = rows_formatted(start, rows, n - 1, size.cols as int);
        lemma_next_row(so_far, before, c, rows, n - 1, size, origin)
    }
}

/// The cursor saved, with its attributes.
proof fn lemma_save(out: Seq<u8>, size: Size, origin: ScreenModel, c: CanvasModel)
    requires
        draws(out, size, origin, c),
    ensures
        draws(
            out + encode_utf8("\x1b7"@),
            size,
            origin,
            CanvasModel {
                saved_pos: c.pos,
                saved_attrs: c.attrs,
                saved_origin: false,
                joins: false,
                ..c
            },
        ),
{
    let code = CodeModel::Escape('7');
    let after = CanvasModel {
        saved_pos: c.pos,
        saved_attrs: c.attrs,
        saved_origin: false,
        joins: false,
        ..c
    };
    assert forall|s: ScreenModel| shows(s, size, c) implies {
        let p = #[trigger] s.performed(code_event(code), 0);
        p.next is None && shows(p.screen, size, after)
    } by {
        assert(s.performed(code_event(code), 0) == quiet(s.parted().cursor_saved())) by {
            reveal(ScreenModel::performed);
        }
        let p = s.performed(code_event(code), 0);
        assert(canvas(p.screen).cells =~= canvas(s).cells);
    }
    lemma_code(out, size, origin, c, code, after);
    reveal_strlit("\x1b7");
    reveal_strlit("\x1b");
    lemma_literal("\x1b7"@, "\x1b"@, '7');
}

/// The cursor back where it was saved.
proof fn lemma_restore(out: Seq<u8>, size: Size, origin: ScreenModel, c: CanvasModel)
    requires
        draws(out, size, origin, c),
        !c.saved_origin,
        c.saved_pos.row < size.rows,
        c.saved_pos.col <= size.cols,
    ensures
        draws(
            out + encode_utf8("\x1b8"@),
            size,
            origin,
            CanvasModel { pos: c.saved_pos, attrs: c.saved_attrs, joins: false, ..c },
        ),
{
    let code = CodeModel::Escape('8');
    let after = CanvasModel { pos: c.saved_pos, attrs: c.saved_attrs, joins: false, ..c };
    assert forall|s: ScreenModel| shows(s, size, c) implies {
        let p = #[trigger] s.performed(code_event(code), 0);
        p.next is None && shows(p.screen, size, after)
    } by {
        assert(s.performed(code_event(code), 0) == quiet(s.parted().cursor_restored())) by {
            reveal(ScreenModel::performed);
        }
        let p = s.performed(code_event(code), 0);
        assert(canvas(p.screen).cells =~= canvas(s).cells);
    }
    lemma_code(out, size, origin, c, code, after);
    reveal_strlit("\x1b8");
    reveal_strlit("\x1b");
    lemma_literal("\x1b8"@, "\x1b"@, '8');
}

/// The cursor some rows further down.
pub proof fn lemma_line_feeds(out: Seq<u8>, size: Size, origin: ScreenModel, c: CanvasModel, n: int)
    requires
        draws(out, size, origin, c),
        0 <= n,
        c.pos.row + n < size.rows,
        c.pos.col <= size.cols,
    ensures
        draws(
            out + encode_utf8(line_feeds(n)),
            size,
            origin,
            CanvasModel {
                pos: Pos { row: (c.pos.row + n) as u16, col: c.pos.col },
                joins: c.joins && n == 0,
                ..c
            },
        ),
    decreases n,
{
    if n == 0 {
        assert(line_feeds(0) =~= Seq::<char>::empty());
        assert(encode_utf8(Seq::<char>::empty()) =~= Seq::<u8>::empty());
        assert(out + encode_utf8(line_feeds(0)) =~= out);
    } else {
        lemma_line_feeds(out, size, origin, c, n - 1);
        let before = CanvasModel {
            pos: Pos { row: (c.pos.row + n - 1) as u16, col: c.pos.col },
            joins: c.joins && n - 1 == 0,
            ..c
        };
        let to = Pos { row: (c.pos.row + n) as u16, col: c.pos.col };
        lemma_control(out + encode_utf8(line_feeds(n - 1)), size, origin, before, '\n', to);
        lemma_literal(line_feeds(n), line_feeds(n - 1), '\n');
        assert(out + encode_utf8(line_feeds(n)) =~= out + encode_utf8(line_feeds(n - 1))
            + encode_scalar('\n' as u32));
    }
}

/// What ends a row is no second half, and the row ends behind it.
pub proof fn lemma_end_cell(cells: Seq<CellModel>)
    requires
        cells.len() > 0,
        typable_row(cells, cells.len() as int),
    ensures
        ({
            let col = last_glyph_col(cells);
            &&& 0 <= col < cells.len()
            &&& !cells[col].continuation
            &&& col + (if cells[col].wide { 2int } else { 1int }) == cells.len()
            &&& col + 1 < cells.len() ==> cells[col].wide && cells[col + 1] == second_half()
        }),
{
    let cols = cells.len() as int;
    reveal(whole);
    assert(whole_at(cells, cols - 1));
    assert(retypes(cells[cols - 1], cols - 1, cols));
    if cols > 1 {
        assert(whole_at(cells, cols - 2));
    }
}

/// What ends a row drawn again, which puts the cursor behind the row.
#[verifier::spinoff_prover]
proof fn lemma_redrawn(out: Seq<u8>, size: Size, origin: ScreenModel, c: CanvasModel, row: u16)
    requires
        draws(out, size, origin, c),
        row < size.rows,
        c.pos.row < size.rows,
        c.pos.row < u16::MAX,
        c.pos.col <= size.cols,
        c.cells.len() == size.rows,
        c.wraps.len() == size.rows,
        c.cells[row as int].len() == size.cols,
        size.cols > 0,
        redrawable_row(c.cells[row as int], size.cols as int),
        filled_end(c.cells[row as int]),
        c.pos != (Pos { row, col: last_glyph_col(c.cells[row as int]) as u16 }),
    ensures
        ({
            let cells = c.cells[row as int];
            let to = Pos { row, col: last_glyph_col(cells) as u16 };
            draws(
                redrawn(out, Some(c.pos), to, cells[last_glyph_col(cells)], c.attrs),
                size,
                origin,
                CanvasModel { pos: Pos { row, col: size.cols }, joins: true, ..c },
            )
        }),
{
    let cells = c.cells[row as int];
    let cols = size.cols as int;
    let col = last_glyph_col(cells);
    let to = Pos { row, col: col as u16 };
    let cell = cells[col];
    lemma_end_cell(cells);
    assert(retypes(cells[col], col, cols));
    lemma_move_from_to(out, size, origin, c, to);
    let moved = CanvasModel { pos: to, joins: false, ..c };
    let out1 = out + goto(Some(c.pos), to);
    lemma_recolor(out1, size, origin, moved, cell.attrs);
    let colored = CanvasModel { attrs: cell.attrs, ..moved };
    let out2 = out1 + attrs_diff(cell.attrs, c.attrs);
    let n = cell.text.len() as int;
    assert(cell.text.take(n) =~= cell.text);
    assert(typeable(colored, to, cell, size));
    let typed = lemma_type_cell(out2, size, origin, colored, to, cell, n);
    let out3 = out2 + encode_utf8(cell.text);
    assert(partial(cell, n, col + 1 == cols) == cell);
    assert(typed.cells[row as int] =~= cells);
    assert(typed.cells =~= c.cells);
    lemma_recolor(out3, size, origin, typed, c.attrs);
}

/// The cursor put behind a row that no text ends: by a blank that is erased again.
#[verifier::spinoff_prover]
pub proof fn lemma_blank_end(out: Seq<u8>, size: Size, origin: ScreenModel, c: CanvasModel, row: u16)
    requires
        draws(out, size, origin, c),
        row < size.rows,
        c.pos.row < size.rows,
        c.pos.row < u16::MAX,
        c.pos.col <= size.cols,
        c.cells.len() == size.rows,
        c.wraps.len() == size.rows,
        !c.wraps[row as int],
        c.cells[row as int].len() == size.cols,
        size.cols > 0,
        typable_row(c.cells[row as int], size.cols as int),
        !filled_end(c.cells[row as int]),
        size.cols >= 2 ==> !joinable(
            c.cells[row as int][owner_col(c.cells[row as int], size.cols - 2)],
            ' ',
        ),
    ensures
        ({
            let cells = c.cells[row as int];
            let to = Pos { row, col: (size.cols - 1) as u16 };
            let last = cells[size.cols - 1];
            draws(
                out + goto(Some(c.pos), to) + encode_utf8(" "@) + attrs_diff(last.attrs, c.attrs)
                    + encode_utf8("\x1b7"@) + encode_utf8("\x08"@) + term::erase_char(1)
                    + encode_utf8("\x1b8"@) + attrs_diff(c.attrs, last.attrs),
                size,
                origin,
                CanvasModel {
                    pos: Pos { row, col: size.cols },
                    joins: false,
                    saved_pos: Pos { row, col: size.cols },
                    saved_attrs: last.attrs,
                    saved_origin: false,
                    ..c
                },
            )
        }),
{
    let cells = c.cells[row as int];
    let cols = size.cols as int;
    let to = Pos { row, col: (cols - 1) as u16 };
    let behind = Pos { row, col: size.cols };
    let last = cells[cols - 1];
    lemma_end_cell(cells);
    assert(retypes(cells[last_glyph_col(cells)], last_glyph_col(cells), cols));
    assert(last_glyph_col(cells) == cols - 1);
    assert(last.text =~= Seq::<char>::empty());
    assert(last == CellModel::cleared(last.attrs));
    lemma_move_from_to(out, size, origin, c, to);
    let moved = CanvasModel { pos: to, joins: c.joins && to == c.pos, ..c };
    let out1 = out + goto(Some(c.pos), to);
    assert(!would_join(moved, ' '));
    lemma_ink(out1, size, origin, moved, ' ');
    let inked_c = inked(moved, to, ' ');
    assert(inked_c.cells[row as int] =~= cells.update(cols - 1, CellModel::glyph(' ', false, c.attrs)));
    let out2 = out1 + encode_scalar(' ' as u32);
    lemma_recolor(out2, size, origin, inked_c, last.attrs);
    let colored = CanvasModel { attrs: last.attrs, ..inked_c };
    let out3 = out2 + attrs_diff(last.attrs, c.attrs);
    lemma_save(out3, size, origin, colored);
    let kept = CanvasModel {
        saved_pos: behind,
        saved_attrs: last.attrs,
        saved_origin: false,
        joins: false,
        ..colored
    };
    let out4 = out3 + encode_utf8("\x1b7"@);
    let goal = CanvasModel {
        pos: behind,
        joins: false,
        saved_pos: behind,
        saved_attrs: last.attrs,
        saved_origin: false,
        ..c
    };
    assert(inked_c.wraps =~= c.wraps);
    assert(kept.cells =~= c.cells.update(row as int, inked_c.cells[row as int]));
    lemma_blank_taken_back(out4, size, origin, kept, row, goal);
    reveal_strlit(" ");
    assert(" "@ =~= seq![' ']);
    lemma_single(' ');
}

/// The blank that ends a row erased again, with the cursor back behind the row.
#[verifier::spinoff_prover]
proof fn lemma_blank_taken_back(
    out: Seq<u8>,
    size: Size,
    origin: ScreenModel,
    kept: CanvasModel,
    row: u16,
    goal: CanvasModel,
)
    requires
        draws(out, size, origin, kept),
        row < size.rows,
        size.cols > 0,
        kept.pos == (Pos { row, col: size.cols }),
        kept.saved_pos == kept.pos,
        !kept.saved_origin,
        kept.saved_attrs == kept.attrs,
        kept.cells.len() == size.rows,
        kept.wraps.len() == size.rows,
        !kept.wraps[row as int],
        goal == (CanvasModel { cells: goal.cells, attrs: goal.attrs, joins: false, ..kept }),
        goal.cells.len() == size.rows,
        goal.cells[row as int].len() == size.cols,
        kept.cells == goal.cells.update(
            row as int,
            goal.cells[row as int].update(
                size.cols - 1,
                CellModel::glyph(' ', false, goal.attrs),
            ),
        ),
        goal.cells[row as int][size.cols - 1] == CellModel::cleared(kept.attrs),
    ensures
        draws(
            out + encode_utf8("\x08"@) + term::erase_char(1) + encode_utf8("\x1b8"@) + attrs_diff(
                goal.attrs,
                kept.attrs,
            ),
            size,
            origin,
            goal,
        ),
{
    let cols = size.cols as int;
    let to = Pos { row, col: (cols - 1) as u16 };
    lemma_control(out, size, origin, kept, '\x08', to);
    let back = CanvasModel { pos: to, joins: false, ..kept };
    let out5 = out + encode_scalar('\x08' as u32);
    lemma_erase_char(out5, size, origin, back, 1);
    let erased = wiped(back, cols - 1, cols);
    lemma_wiped_narrow(back, cols - 1, cols);
    assert(erased.cells[row as int] =~= goal.cells[row as int]);
    assert(erased.cells =~= goal.cells);
    let out6 = out5 + term::erase_char(1);
    lemma_restore(out6, size, origin, erased);
    let restored = CanvasModel { pos: kept.pos, ..erased };
    let out7 = out6 + encode_utf8("\x1b8"@);
    lemma_recolor(out7, size, origin, restored, goal.attrs);
    reveal_strlit("\x08");
    assert("\x08"@ =~= seq!['\x08']);
    lemma_single('\x08');
}

/// Text and the text behind it, encoded.
proof fn lemma_encode_concat(a: Seq<char>, b: Seq<char>)
    ensures
        encode_utf8(a + b) == encode_utf8(a) + encode_utf8(b),
    decreases b.len(),
{
    if b.len() == 0 {
        assert(a + b =~= a);
        assert(encode_utf8(b) =~= Seq::<u8>::empty());
        assert(encode_utf8(a) + encode_utf8(b) =~= encode_utf8(a));
    } else {
        lemma_encode_concat(a, b.drop_last());
        lemma_literal(a + b, a + b.drop_last(), b.last());
        lemma_literal(b, b.drop_last(), b.last());
        assert(encode_utf8(a + b) =~= encode_utf8(a) + encode_utf8(b));
    }
}

/// A blank canvas of a size.
spec fn blank_canvas(c: CanvasModel, size: Size) -> bool {
    &&& c.cells.len() == size.rows
    &&& forall|i: int| 0 <= i < size.rows ==> #[trigger] c.cells[i] == blank_cells(size.cols as nat)
    &&& c.wraps.len() == size.rows
    &&& forall|i: int| 0 <= i < size.rows ==> !#[trigger] c.wraps[i]
    &&& c.pos == (Pos { row: 0, col: 0 })
    &&& c.attrs == AttrsModel::plain()
    &&& !c.joins
}

/// Clearing a screen that is blank.
proof fn lemma_clear(out: Seq<u8>, size: Size, origin: ScreenModel, c: CanvasModel)
    requires
        draws(out, size, origin, c),
        blank_canvas(c, size),
        size.rows > 0,
        size.cols > 0,
    ensures
        draws(out + encode_utf8("\x1b[H\x1b[J"@), size, origin, c),
{
    let home = Pos { row: 0, col: 0 };
    lemma_move_to(out, size, origin, c, home);
    let out1 = out + term::move_to(home);
    let params = Seq::<u16>::empty();
    let code = CodeModel::Csi(params, 'J');
    let list = seq![seq![0u16]];
    assert(list[0].len() == 1 && list[0][0] == 0);
    assert(turns(size, code, c, c)) by {
        assert forall|s: ScreenModel| shows(s, size, c) implies {
            let p = #[trigger] s.performed(code_event(code), 0);
            p.next is None && shows(p.screen, size, c)
        } by {
            lemma_cleared_blank(s, size, c);
            assert(s.parted().csi_plain(list, 'J') == Some(
                s.parted().with_active(s.grid.erased_all_forward(s.attrs)),
            )) by {
                reveal(ScreenModel::csi_plain);
                reveal(ScreenModel::display_erased);
            }
            lemma_csi_performed(s, list, 'J');
        }
    }
    lemma_code(out1, size, origin, c, code, c);
    reveal_strlit("\x1b[H\x1b[J");
    reveal_strlit("\x1b[H");
    reveal_strlit("\x1b[J");
    reveal_strlit("\x1b[");
    lemma_literal("\x1b[J"@, "\x1b["@, 'J');
    assert(term::joined_params(params) =~= Seq::<u8>::empty());
    assert(code_bytes(code) =~= encode_utf8("\x1b[J"@));
    assert("\x1b[H\x1b[J"@ =~= "\x1b[H"@ + "\x1b[J"@);
    lemma_encode_concat("\x1b[H"@, "\x1b[J"@);
    assert(out1 + code_bytes(code) =~= out + encode_utf8("\x1b[H\x1b[J"@));
}

proof fn lemma_cleared_blank(s: ScreenModel, size: Size, c: CanvasModel)
    requires
        shows(s, size, c),
        blank_canvas(c, size),
    ensures
        shows(s.parted().with_active(s.grid.erased_all_forward(s.attrs)), size, c),
{
    let grid = s.grid;
    let cleared = GridModel {
        rows: Seq::new(
            grid.rows.len(),
            |i: int|
                if i > grid.pos.row {
                    grid.rows[i].cleared(s.attrs)
                } else {
                    grid.rows[i]
                },
        ),
        ..grid
    };
    assert(c.cells[0] == grid.rows[0].cells);
    lemma_erased_narrow(cleared.rows[0], 0, size.cols as int, s.attrs);
    let t = s.parted().with_active(grid.erased_all_forward(s.attrs));
    assert forall|i: int| 0 <= i < size.rows implies #[trigger] t.grid.rows[i].cells == c.cells[i] by {
        assert(c.cells[i] == blank_cells(size.cols as nat));
        assert(c.cells[i] == grid.rows[i].cells);
        if i > 0 {
            assert(t.grid.rows[i] == grid.rows[i].cleared(s.attrs));
        }
        assert(t.grid.rows[i].cells =~= c.cells[i]);
    }
    lemma_erased_cells(cleared.rows[0], 0, size.cols as int, s.attrs);
    assert(canvas(t).cells =~= c.cells);
    assert forall|i: int| 0 <= i < size.rows implies !(#[trigger] t.grid.rows[i]).wrapped by {
        assert(c.wraps[i] == grid.rows[i].wrapped);
    }
    assert(canvas(t).wraps =~= c.wraps);
}

/// Whether a cursor that waits behind a row can be put there: a blank that is drawn for
/// it does not join the text before it.
pub open spec fn cursor_redrawable(grid: GridModel) -> bool {
    let cells = grid.current_row().cells;
    grid.pos.col >= grid.size.cols ==> {
        &&& grid.scrollback_offset == 0
        &&& filled_end(cells) || filled_row_above(grid.rows, grid.pos.row as int) is Some
            || grid.size.cols < 2 || !joinable(cells[owner_col(cells, grid.size.cols - 2)], ' ')
    }
}

pub proof fn lemma_filled_row_above(rows: Seq<RowModel>, row: int)
    requires
        0 <= row <= rows.len(),
    ensures
        filled_row_above(rows, row) matches Some(i) ==> 0 <= i < row && filled_end(rows[i].cells),
    decreases row,
{
    if row > 0 && end_cell(rows[row - 1]).text.len() == 0 {
        lemma_filled_row_above(rows, row - 1);
    }
}

/// The cursor put in its place behind what was written.
#[verifier::spinoff_prover]
proof fn lemma_cursor(
    w: WrittenModel,
    c: CanvasModel,
    start: CanvasModel,
    grid: GridModel,
    origin: ScreenModel,
) -> (d: CanvasModel)
    requires
        draws(w.out, grid.size, origin, c),
        grid.wf(),
        grid.allocated(),
        rows_so_far(w, c, start, grid.visible(), grid.size.rows as int, grid.size),
        redrawable_rows(grid.visible(), grid.size.cols as int),
        cursor_redrawable(grid),
    ensures
        draws(grid.cursor_formatted(w.out, Some(w.pos), Some(w.attrs)), grid.size, origin, d),
        d.cells == c.cells,
        d.wraps == c.wraps,
        d.pos == grid.pos,
        d.attrs == c.attrs,
        d.hidden == c.hidden,
{
    let size = grid.size;
    let cols = size.cols as int;
    let rows = grid.visible();
    if w.pos != grid.pos && grid.pos.col >= cols {
        assert(rows =~= grid.rows);
        let row = grid.pos.row;
        let cells = grid.rows[row as int].cells;
        assert(c.cells[row as int] == rows[row as int].cells);
        assert(redrawable_row(rows[row as int].cells, cols));
        if filled_end(cells) {
            if w.pos.row == row {
                lemma_behind_filled_row(cells, w.pos.col as int);
            }
            lemma_redrawn(w.out, size, origin, c, row);
            CanvasModel { pos: grid.pos, joins: true, ..c }
        } else {
            lemma_filled_row_above(grid.rows, row as int);
            match filled_row_above(grid.rows, row as int) {
                Some(i) => {
                    assert(c.cells[i] == rows[i].cells);
                    assert(redrawable_row(rows[i].cells, cols));
                    lemma_cursor_below(w, c, start, grid, origin, i)
                },
                None => {
                    assert(c.wraps[row as int] == (row < size.rows - 1 && rows[row as int].wrapped));
                    lemma_blank_end(w.out, size, origin, c, row);
                    CanvasModel {
                        pos: grid.pos,
                        joins: false,
                        saved_pos: grid.pos,
                        saved_attrs: cells[cols - 1].attrs,
                        saved_origin: false,
                        ..c
                    }
                },
            }
        }
    } else if w.pos == grid.pos {
        assert(w.out + goto(Some(w.pos), grid.pos) =~= w.out);
        c
    } else {
        lemma_move_from_to(w.out, size, origin, c, grid.pos);
        CanvasModel { pos: grid.pos, joins: false, ..c }
    }
}

/// The cursor put behind a row that no text ends, from a row above that text ends.
proof fn lemma_cursor_below(
    w: WrittenModel,
    c: CanvasModel,
    start: CanvasModel,
    grid: GridModel,
    origin: ScreenModel,
    i: int,
) -> (d: CanvasModel)
    requires
        draws(w.out, grid.size, origin, c),
        grid.wf(),
        grid.allocated(),
        rows_so_far(w, c, start, grid.rows, grid.size.rows as int, grid.size),
        grid.pos.col >= grid.size.cols,
        0 <= i < grid.pos.row,
        redrawable_row(grid.rows[i].cells, grid.size.cols as int),
        filled_end(grid.rows[i].cells),
    ensures
        ({
            let waiting = w.pos.row == i && w.pos.col >= grid.size.cols;
            let above = grid.rows[i];
            let to = Pos { row: i as u16, col: last_glyph_col(above.cells) as u16 };
            draws(
                (if waiting {
                    w.out
                } else {
                    redrawn(w.out, Some(w.pos), to, end_cell(above), w.attrs)
                }) + encode_utf8(line_feeds(grid.pos.row - i)),
                grid.size,
                origin,
                d,
            )
        }),
        d.cells == c.cells,
        d.wraps == c.wraps,
        d.pos == grid.pos,
        d.attrs == c.attrs,
        d.hidden == c.hidden,
{
    let size = grid.size;
    let cells = grid.rows[i].cells;
    assert(c.cells[i] == grid.rows[i].cells);
    let waiting = w.pos.row == i && w.pos.col >= size.cols;
    let to = Pos { row: i as u16, col: last_glyph_col(cells) as u16 };
    if w.pos.row == i {
        lemma_behind_filled_row(cells, w.pos.col as int);
    }
    let behind = Pos { row: i as u16, col: size.cols };
    let out1 = if waiting {
        w.out
    } else {
        redrawn(w.out, Some(w.pos), to, end_cell(grid.rows[i]), w.attrs)
    };
    let there = if waiting { c } else { CanvasModel { pos: behind, joins: true, ..c } };
    if !waiting {
        lemma_redrawn(w.out, size, origin, c, i as u16);
    }
    lemma_line_feeds(out1, size, origin, there, grid.pos.row - i);
    CanvasModel { pos: grid.pos, joins: false, ..there }
}

/// Whether a screen can be written out and drawn again: every cell is what its text
/// becomes when it is typed in its place, text that wraps onto a row does not join the
/// row above, and a cursor that waits behind a row is on view and can be put there.
pub open spec fn redrawable(screen: ScreenModel) -> bool {
    let grid = screen.active();
    redrawable_rows(grid.visible(), grid.size.cols as int) && cursor_redrawable(grid)
}

/// Whether a main screen on which nothing limits the cursor shows what another one does:
/// the cells and the wrapping of each row on view, the cursor, the attributes of what is
/// drawn next, and whether the cursor is hidden.
pub open spec fn shows_the_same(again: ScreenModel, screen: ScreenModel) -> bool {
    let rows = screen.active().visible();
    let shown = again.active().visible();
    &&& framed(again, screen.size())
    &&& shown.len() == rows.len()
    &&& forall|i: int|
        0 <= i < rows.len() ==> (#[trigger] shown[i]).cells == rows[i].cells && shown[i].wrapped
            == rows[i].wrapped
    &&& again.active().pos == screen.active().pos
    &&& again.attrs == screen.attrs
    &&& again.modes.hide_cursor == screen.modes.hide_cursor
}

/// The canvas of a new screen on which the cursor is hidden or shown.
spec fn opened(origin: ScreenModel, hide: bool) -> CanvasModel {
    CanvasModel { joins: false, hidden: hide, ..canvas(origin) }
}

/// What is written before the rows leaves a new screen blank.
#[verifier::spinoff_prover]
proof fn lemma_opening(size: Size, scrollback_len: usize, hide: bool)
    requires
        size.rows > 0,
        size.cols > 0,
    ensures
        ({
            let origin = ScreenModel::fresh(size, scrollback_len);
            &&& draws(
                Seq::<u8>::empty() + term::switch(hide, "\x1b[?25l", "\x1b[?25h") + encode_utf8(
                    "\x1b[m"@,
                ) + encode_utf8("\x1b[H\x1b[J"@),
                size,
                origin,
                opened(origin, hide),
            )
            &&& blank_canvas(opened(origin, hide), size)
        }),
{
    let origin = ScreenModel::fresh(size, scrollback_len);
    let shown = opened(origin, hide);
    lemma_start(size, origin);
    lemma_cursor_code(Seq::empty(), size, origin, canvas(origin), hide);
    let out1 = Seq::<u8>::empty() + term::switch(hide, "\x1b[?25l", "\x1b[?25h");
    lemma_reset(out1, size, origin, shown);
    assert(blank_canvas(shown, size));
    lemma_clear(out1 + encode_utf8("\x1b[m"@), size, origin, shown);
}

/// The rows and the cursor of a screen, drawn on a blank one.
#[verifier::spinoff_prover]
proof fn lemma_drawn_screen(
    start: WrittenModel,
    shown: CanvasModel,
    grid: GridModel,
    origin: ScreenModel,
    attrs: AttrsModel,
) -> (last: CanvasModel)
    requires
        draws(start.out, grid.size, origin, shown),
        blank_canvas(shown, grid.size),
        start == (WrittenModel {
            out: start.out,
            pos: Pos { row: 0, col: 0 },
            attrs: AttrsModel::plain(),
            wrapping: false,
            prev_wrapping: false,
        }),
        grid.wf(),
        grid.allocated(),
        redrawable_rows(grid.visible(), grid.size.cols as int),
        cursor_redrawable(grid),
    ensures
        ({
            let rows = grid.visible();
            let written = rows_formatted(start, rows, rows.len() as int, grid.size.cols as int);
            let out = grid.cursor_formatted(written.out, Some(written.pos), Some(written.attrs));
            draws(out + attrs_diff(attrs, written.attrs), grid.size, origin, last)
        }),
        forall|i: int| 0 <= i < grid.size.rows ==> #[trigger] last.cells[i] == grid.visible()[i].cells,
        forall|i: int|
            0 <= i < grid.size.rows ==> #[trigger] last.wraps[i] == grid.visible()[i].wrapped,
        last.pos == grid.pos,
        last.attrs == attrs,
        last.hidden == shown.hidden,
{
    let size = grid.size;
    let rows = grid.visible();
    let drawn = lemma_rows(start, shown, rows, rows.len() as int, size, origin);
    let written = rows_formatted(start, rows, rows.len() as int, size.cols as int);
    let placed = lemma_cursor(written, drawn, shown, grid, origin);
    let out = grid.cursor_formatted(written.out, Some(written.pos), Some(written.attrs));
    lemma_recolor(out, size, origin, placed, attrs);
    assert forall|i: int| 0 <= i < size.rows implies #[trigger] placed.wraps[i]
        == rows[i].wrapped by {
        assert(drawn.wraps[i] == (i < size.rows - 1 && rows[i].wrapped));
        assert(rows.last() == rows[size.rows - 1]);
    }
    CanvasModel { attrs, ..placed }
}

/// What is written out for a screen draws the same on a new one. The bytes are codes one
/// after the other, and the codes are performed as what they ask for.
pub proof fn law_written_screens_draw_themselves(screen: ScreenModel, scrollback_len: usize) -> (codes: Seq<
    CodeModel,
>)
    requires
        screen.wf(),
        redrawable(screen),
    ensures
        codes_bytes(codes) == screen.contents_bytes(Seq::empty()),
        shows_the_same(
            replayed(ScreenModel::fresh(screen.size(), scrollback_len), codes),
            screen,
        ),
{
    let grid = screen.active();
    let size = grid.size;
    let hide = screen.modes.hide_cursor;
    let origin = ScreenModel::fresh(size, scrollback_len);
    lemma_opening(size, scrollback_len, hide);
    let start = WrittenModel {
        out: Seq::<u8>::empty() + screen.cursor_visibility() + encode_utf8("\x1b[m"@) + encode_utf8(
            "\x1b[H\x1b[J"@,
        ),
        pos: Pos { row: 0, col: 0 },
        attrs: AttrsModel::plain(),
        wrapping: false,
        prev_wrapping: false,
    };
    let last = lemma_drawn_screen(start, opened(origin, hide), grid, origin, screen.attrs);
    let out = screen.contents_bytes(Seq::empty());
    let codes = choose|codes: Seq<CodeModel>| drawn_by(codes, out, size, origin, last);
    lemma_shown_rows(replayed(origin, codes), last, screen);
    codes
}

/// A screen that shows the canvas of another one.
pub proof fn lemma_shown_rows(again: ScreenModel, c: CanvasModel, screen: ScreenModel)
    requires
        screen.wf(),
        shows(again, screen.size(), c),
        ({
            let rows = screen.active().visible();
            &&& rows.len() == screen.size().rows
            &&& forall|i: int| 0 <= i < rows.len() ==> #[trigger] c.cells[i] == rows[i].cells
            &&& forall|i: int| 0 <= i < rows.len() ==> #[trigger] c.wraps[i] == rows[i].wrapped
        }),
        c.pos == screen.active().pos,
        c.attrs == screen.attrs,
        c.hidden == screen.modes.hide_cursor,
    ensures
        shows_the_same(again, screen),
{
    let rows = screen.active().visible();
    let shown = again.active().visible();
    assert forall|i: int| 0 <= i < rows.len() implies (#[trigger] shown[i]).cells == rows[i].cells
        && shown[i].wrapped == rows[i].wrapped by {
        assert(c.cells[i] == rows[i].cells);
        assert(c.wraps[i] == rows[i].wrapped);
        assert(canvas(again).cells[i] == again.grid.rows[i].cells);
        assert(canvas(again).wraps[i] == again.grid.rows[i].wrapped);
    }
}

/// The attributes reset.
proof fn lemma_reset(out: Seq<u8>, size: Size, origin: ScreenModel, c: CanvasModel)
    requires
        draws(out, size, origin, c),
        c.attrs == AttrsModel::plain(),
    ensures
        draws(out + encode_utf8("\x1b[m"@), size, origin, c),
{
    law_attributes_round_trip(c.attrs, c.attrs);
    lemma_sgr_bytes(Seq::empty());
    lemma_sgr_code(out, size, origin, c, Seq::empty(), AttrsModel::plain());
}

} // verus!
