//! A single row of the terminal grid.

use crate::ratty_vt::attrs::{attrs_diff, law_equal_attrs_write_nothing, Attrs, AttrsModel};
use crate::ratty_vt::cell::{lemma_encode_push, Cell, CellModel};
use crate::ratty_vt::grid::Pos;
use crate::ratty_vt::screen_model::{row_continued, row_drawn, row_joined, KITTY_PLACEHOLDER};
use crate::ratty_vt::term::{self, BufWrite};
use crate::ratty_vt::unicode::{stands_apart, clusters_with};
use vstd::prelude::*;
use vstd::string::*;
use vstd::utf8::encode_utf8;

verus! {

/// What a row shows.
pub struct RowModel {
    pub cells: Seq<CellModel>,
    pub wrapped: bool,
    pub placeholder: bool,
}

/// The cells of a row, as what they show.
pub open spec fn cells_view(cells: Seq<Cell>) -> Seq<CellModel> {
    Seq::new(cells.len(), |i: int| cells[i]@)
}

/// Some rows, as what they show.
pub open spec fn rows_view(rows: Seq<Row>) -> Seq<RowModel> {
    Seq::new(rows.len(), |i: int| rows[i]@)
}

/// Clearing the other half of the wide character at a column, if the column
/// holds one half and the row the other. A half whose other half was cut off
/// with the end of a row stands alone.
pub open spec fn other_half_cleared(cells: Seq<CellModel>, col: int) -> Seq<CellModel> {
    if cells[col].wide {
        if col + 1 < cells.len() {
            cells.update(col + 1, CellModel::cleared(cells[col + 1].attrs))
        } else {
            cells
        }
    } else if cells[col].continuation && col > 0 {
        cells.update(col - 1, CellModel::cleared(cells[col - 1].attrs))
    } else {
        cells
    }
}

/// Blank cells.
pub open spec fn blank_cells(n: nat) -> Seq<CellModel> {
    Seq::new(n, |i: int| CellModel::blank())
}

impl RowModel {
    /// A row of blank cells.
    pub open spec fn blank(cols: nat) -> Self {
        RowModel {
            cells: blank_cells(cols),
            wrapped: false,
            placeholder: false,
        }
    }

    /// The row with every cell cleared.
    pub open spec fn cleared(self, attrs: AttrsModel) -> Self {
        RowModel {
            cells: Seq::new(self.cells.len(), |i: int| CellModel::cleared(attrs)),
            wrapped: false,
            placeholder: false,
        }
    }

    /// Whether nothing was ever drawn in the row.
    pub open spec fn is_blank(self) -> bool {
        forall|i: int| 0 <= i < self.cells.len() ==> #[trigger] self.cells[i] == CellModel::blank()
    }

    pub open spec fn with_cell(self, i: int, cell: CellModel) -> Self {
        RowModel { cells: self.cells.update(i, cell), ..self }
    }

    pub open spec fn with_wrap(self, wrap: bool) -> Self {
        RowModel { wrapped: wrap, ..self }
    }

    /// The row with a cell inserted.
    pub open spec fn inserted(self, i: int, cell: CellModel) -> Self {
        RowModel { cells: self.cells.insert(i, cell), wrapped: false, ..self }
    }

    /// The row with a cell removed; the other half of a wide character goes
    /// with it.
    pub open spec fn removed(self, i: int) -> Self {
        RowModel { cells: other_half_cleared(self.cells, i).remove(i), wrapped: false, ..self }
    }

    /// The row with a cell erased; the other half of a wide character goes
    /// with it. Erasing what ends the row ends its wrapping.
    pub open spec fn erased(self, i: int, attrs: AttrsModel) -> Self {
        let span = if self.cells[i].wide { 2int } else { 1int };
        RowModel {
            cells: other_half_cleared(self.cells, i).update(i, CellModel::cleared(attrs)),
            wrapped: self.wrapped && i + span != self.cells.len(),
            ..self
        }
    }

    /// The row with the cells of the columns `from..to` erased, left to right.
    pub open spec fn erased_range(self, from: int, to: int, attrs: AttrsModel) -> Self
        decreases to - from,
    {
        if to <= from {
            self
        } else {
            self.erased_range(from, to - 1, attrs).erased(to - 1, attrs)
        }
    }

    /// The row cut off after some cells; a first half at the cut is cleared.
    pub open spec fn truncated(self, len: int) -> Self {
        let cells = self.cells.take(len);
        RowModel {
            cells: if cells[len - 1].wide {
                cells.update(len - 1, CellModel::cleared(cells[len - 1].attrs))
            } else {
                cells
            },
            wrapped: false,
            ..self
        }
    }

    /// The row cut off or filled up with a cell.
    pub open spec fn resized(self, len: nat, cell: CellModel) -> Self {
        RowModel {
            cells: Seq::new(
                len,
                |i: int|
                    if i < self.cells.len() {
                        self.cells[i]
                    } else {
                        cell
                    },
            ),
            wrapped: false,
            ..self
        }
    }
}

/// `n` spaces.
pub open spec fn spaces(n: int) -> Seq<char> {
    Seq::new(n as nat, |i: int| ' ')
}

/// How far the text of a row has been read: the text, the column after it, and
/// whether the next cell is the second half of a wide character.
pub struct TextModel {
    pub out: Seq<char>,
    pub col: int,
    pub skip: bool,
}

impl TextModel {
    /// Reads one more cell. Columns without text become spaces as soon as text
    /// follows them.
    pub open spec fn step(self, cell: CellModel, col: int) -> Self {
        if self.skip {
            TextModel { skip: false, ..self }
        } else if cell.text.len() > 0 {
            TextModel {
                out: self.out + spaces(col - self.col) + cell.text,
                col: if cell.wide { col + 2 } else { col + 1 },
                skip: cell.wide,
            }
        } else {
            TextModel { skip: cell.wide, ..self }
        }
    }
}

/// Reading the cells of the columns `start..end`.
pub open spec fn text_read(out: Seq<char>, cells: Seq<CellModel>, start: int, end: int) -> TextModel
    decreases end - start,
{
    if end <= start {
        TextModel { out, col: start, skip: false }
    } else {
        text_read(out, cells, start, end - 1).step(cells[end - 1], end - 1)
    }
}

/// The end of a span of columns, within a row.
pub open spec fn span_end(start: int, width: int, len: int) -> int {
    if start > len {
        start
    } else if start + width < len {
        start + width
    } else {
        len
    }
}

/// The text so far, with the text of a span of a row added. An empty row into
/// which the row before wraps counts as a line break.
pub open spec fn row_text(
    out: Seq<char>,
    row: RowModel,
    start: int,
    width: int,
    wrapping: bool,
) -> Seq<char> {
    let read = text_read(out, row.cells, start, span_end(start, width, row.cells.len() as int));
    if read.col == start && wrapping {
        read.out.push('\n')
    } else {
        read.out
    }
}

/// The state of writing a row out as terminal bytes: the bytes so far, where
/// they leave the cursor and the attributes, the column from which cells are
/// still to be erased and with which attributes, the text written last, and
/// whether the next cell is the second half of a wide character.
pub struct PenModel {
    pub out: Seq<u8>,
    pub pos: Pos,
    pub attrs: AttrsModel,
    pub erase: Option<(u16, AttrsModel)>,
    pub last: Option<Seq<char>>,
    pub skip: bool,
}

/// A column some cells further on, kept within what a position can hold.
pub open spec fn col_after(col: u16, cells: int) -> u16 {
    if col + cells <= u16::MAX {
        (col + cells) as u16
    } else {
        u16::MAX
    }
}

/// The text of a space and a backspace: it leaves the pending wrap and stays on
/// the first column.
pub open spec fn step_over_wrap() -> Seq<u8> {
    encode_utf8(" "@) + encode_utf8("\x08"@)
}

impl PenModel {
    pub open spec fn write(self, bytes: Seq<u8>) -> Self {
        PenModel { out: self.out + bytes, ..self }
    }

    pub open spec fn move_to(self, pos: Pos) -> Self {
        PenModel { out: self.out + term::move_from_to(self.pos, pos), pos, ..self }
    }

    pub open spec fn recolor(self, attrs: AttrsModel) -> Self {
        PenModel { out: self.out + attrs_diff(attrs, self.attrs), attrs, ..self }
    }

    /// Whether the cursor waits behind the row before for text to wrap.
    pub open spec fn waits_to_wrap(self, row: u16, cols: int) -> bool {
        self.pos.row + 1 == row && self.pos.col >= cols
    }

    /// Erases the cells that are still to be erased: by count, up to a column,
    /// or to the end of the row.
    pub open spec fn flushed(self, row: u16, end: Option<u16>, cols: int, wrapping: bool) -> Self {
        match self.erase {
            None => self,
            Some((col, attrs)) => {
                let to = Pos { row, col };
                let moved = if wrapping && self.waits_to_wrap(row, cols) {
                    let blanks = if col > 0 { encode_utf8(spaces(col as int)) } else { step_over_wrap() };
                    PenModel { out: self.out + blanks, pos: to, ..self }
                } else {
                    self.move_to(to)
                };
                let erased = match end {
                    Some(end) => term::erase_char(end - col),
                    None => encode_utf8("\x1b[K"@),
                };
                PenModel { erase: None, ..moved.recolor(attrs).write(erased) }
            },
        }
    }

    /// Writes the text of a cell at its place. Text that would join the text
    /// written before it is set apart by an explicit cursor move.
    pub open spec fn draw(
        self,
        cell: CellModel,
        row: u16,
        col: u16,
        cols: int,
        wrapping: bool,
    ) -> Self {
        let to = Pos { row, col };
        let wraps_here = wrapping && self.pos.row + 1 == row && self.pos.col >= cols - (if cell.wide {
            1int
        } else {
            0int
        }) && col == 0;
        let placed = if to == self.pos || wraps_here {
            PenModel { pos: to, ..self }
        } else {
            self.move_to(to)
        };
        let colored = placed.recolor(cell.attrs);
        let joins = match colored.last {
            Some(last) => !stands_apart(last, cell.text[0]),
            None => false,
        };
        let apart = if joins { colored.write(term::move_to(to)) } else { colored };
        PenModel {
            pos: Pos { row, col: col_after(col, if cell.wide { 2 } else { 1 }) },
            last: Some(cell.text),
            ..apart.write(encode_utf8(cell.text))
        }
    }

    /// Writes and erases a blank at the start of a row into which the row before
    /// wraps.
    pub open spec fn wrapped_onto_blank(self, row: u16) -> Self {
        PenModel {
            pos: Pos { row, col: 0 },
            ..self.recolor(AttrsModel::plain()).write(step_over_wrap()).write(term::erase_char(1))
        }
    }

    /// Writes the first cell of a row into which the row before now wraps, and
    /// goes back to the start of the row.
    pub open spec fn wrapped_onto(self, first: CellModel, row: u16) -> Self {
        let text = if first.text.len() == 0 { encode_utf8(" "@) } else { encode_utf8(first.text) };
        let back = encode_utf8("\x08"@) + (if first.wide { encode_utf8("\x08"@) } else { Seq::empty() });
        let erased = if first.text.len() == 0 { term::erase_char(1) } else { Seq::empty() };
        PenModel {
            pos: Pos { row, col: 0 },
            ..self.recolor(first.attrs).write(text).write(back).write(erased)
        }
    }

    /// Redraws the cell that ends a row whose wrapping changes. A row that
    /// stops wrapping has it erased first.
    pub open spec fn rewrapped(self, cell: CellModel, row: u16, col: u16, wrapped: bool) -> Self {
        let at_end = self.move_to(Pos { row, col });
        let ready = if wrapped { at_end } else { at_end.write(term::erase_char(1)) };
        if cell.text.len() > 0 {
            PenModel {
                pos: Pos { row, col: col_after(col, if cell.wide { 2 } else { 1 }) },
                ..ready.recolor(cell.attrs).write(encode_utf8(cell.text))
            }
        } else {
            ready
        }
    }

    /// Writes what turns the cell `shown` at a column into `cell`.
    pub open spec fn step(
        self,
        cell: CellModel,
        shown: CellModel,
        row: u16,
        col: u16,
        cols: int,
        wrapping: bool,
    ) -> Self {
        if self.skip {
            PenModel { skip: false, ..self }
        } else {
            let pen = PenModel { skip: cell.wide, ..self };
            let ends_erasing = match pen.erase {
                Some((_, attrs)) => cell.text.len() > 0 || cell.attrs != attrs,
                None => false,
            };
            let ready = if ends_erasing { pen.flushed(row, Some(col), cols, wrapping) } else { pen };
            if cell == shown {
                ready
            } else if cell.text.len() > 0 {
                ready.draw(cell, row, col, cols, wrapping)
            } else if ready.erase is None {
                PenModel { erase: Some((col, cell.attrs)), ..ready }
            } else {
                ready
            }
        }
    }

    /// Writes what turns the columns `start..end` of `shown` into those of
    /// `cells`.
    pub open spec fn steps(
        self,
        cells: Seq<CellModel>,
        shown: Seq<CellModel>,
        row: u16,
        start: int,
        end: int,
        wrapping: bool,
    ) -> Self
        decreases end - start,
    {
        if end <= start {
            self
        } else {
            self.steps(cells, shown, row, start, end - 1, wrapping).step(
                cells[end - 1],
                shown[end - 1],
                row,
                (end - 1) as u16,
                cells.len() as int,
                wrapping,
            )
        }
    }
}

/// Writing out a span of a row on a cleared screen.
pub open spec fn row_formatted(
    out: Seq<u8>,
    cells: Seq<CellModel>,
    start: int,
    width: int,
    row: u16,
    wrapping: bool,
    prev_pos: Option<Pos>,
    prev_attrs: Option<AttrsModel>,
) -> PenModel {
    let cols = cells.len() as int;
    let pen = PenModel {
        out,
        pos: match prev_pos {
            Some(pos) => pos,
            None => if wrapping {
                Pos { row: (row - 1) as u16, col: cols as u16 }
            } else {
                Pos { row, col: start as u16 }
            },
        },
        attrs: match prev_attrs {
            Some(attrs) => attrs,
            None => AttrsModel::plain(),
        },
        erase: None,
        last: None,
        skip: false,
    };
    let ready = if wrapping && cells[start] == CellModel::blank() {
        pen.wrapped_onto_blank(row)
    } else {
        pen
    };
    ready.steps(
        cells,
        blank_cells(cells.len()),
        row,
        start,
        span_end(start, width, cols),
        wrapping,
    ).flushed(row, None, cols, wrapping)
}

/// The column at which the character that ends a row starts.
pub open spec fn last_glyph_col(cells: Seq<CellModel>) -> int {
    if cells[cells.len() - 1].continuation && cells.len() > 1 {
        cells.len() - 2
    } else {
        cells.len() - 1
    }
}

/// Writing out what turns a span of the row `prev` into that of `row`.
pub open spec fn row_diff(
    out: Seq<u8>,
    this: RowModel,
    prev: RowModel,
    start: int,
    width: int,
    row: u16,
    wrapping: bool,
    prev_wrapping: bool,
    prev_pos: Pos,
    prev_attrs: AttrsModel,
) -> PenModel {
    let cols = this.cells.len() as int;
    let shorter = if this.cells.len() < prev.cells.len() { cols } else { prev.cells.len() as int };
    let first = this.cells[start];
    let pen = PenModel {
        out,
        pos: prev_pos,
        attrs: prev_attrs,
        erase: None,
        last: None,
        skip: false,
    };
    let starts_wrapping = wrapping && !prev_wrapping && first == prev.cells[start] && prev_pos.row + 1
        == row && prev_pos.col >= cols - (if first.wide { 1int } else { 0int });
    let ready = if starts_wrapping { pen.wrapped_onto(first, row) } else { pen };
    let drawn = ready.steps(
        this.cells,
        prev.cells,
        row,
        start,
        span_end(start, width, shorter),
        wrapping,
    ).flushed(row, None, cols, wrapping);
    if this.wrapped == prev.wrapped {
        drawn
    } else {
        let end = last_glyph_col(this.cells);
        drawn.rewrapped(this.cells[end], row, end as u16, this.wrapped)
    }
}

/// A single row of the terminal grid.
#[derive(Debug)]
pub struct Row {
    cells: Vec<Cell>,
    wrapped: bool,
    kitty_placeholder: bool,
}

impl View for Row {
    type V = RowModel;

    closed spec fn view(&self) -> RowModel {
        RowModel {
            cells: cells_view(self.cells@),
            wrapped: self.wrapped,
            placeholder: self.kitty_placeholder,
        }
    }
}

impl Clone for Row {
    fn clone(&self) -> (r: Self)
        ensures
            r@ == self@,
    {
        let mut cells: Vec<Cell> = Vec::new();
        let mut i: usize = 0;
        while i < self.cells.len()
            invariant
                i <= self.cells.len(),
                cells.len() == i,
                forall|k: int| 0 <= k < i ==> (#[trigger] cells@[k])@ == self.cells@[k]@,
            decreases self.cells.len() - i,
        {
            cells.push(self.cells[i].clone());
            i = i + 1;
        }
        assert(cells_view(cells@) =~= cells_view(self.cells@));
        Row { cells, wrapped: self.wrapped, kitty_placeholder: self.kitty_placeholder }
    }
}

impl Row {
    pub fn new(cols: u16) -> (r: Self)
        ensures
            r@ == RowModel::blank(cols as nat),
    {
        let mut cells: Vec<Cell> = Vec::new();
        let mut i: u16 = 0;
        while i < cols
            invariant
                i <= cols,
                cells.len() == i,
                forall|k: int| 0 <= k < i ==> (#[trigger] cells@[k])@ == CellModel::blank(),
            decreases cols - i,
        {
            cells.push(Cell::new());
            i = i + 1;
        }
        let r = Row { cells, wrapped: false, kitty_placeholder: false };
        assert(r@.cells =~= RowModel::blank(cols as nat).cells);
        r
    }

    pub fn cols(&self) -> (r: u16)
        requires
            self@.cells.len() <= u16::MAX,
        ensures
            r == self@.cells.len(),
    {
        self.cells.len() as u16
    }

    pub fn clear(&mut self, attrs: Attrs)
        ensures
            final(self)@ == old(self)@.cleared(attrs@),
    {
        let mut i: usize = 0;
        while i < self.cells.len()
            invariant
                i <= self.cells.len(),
                self.cells.len() == old(self).cells.len(),
                forall|k: int| 0 <= k < i ==> (#[trigger] self.cells@[k])@ == CellModel::cleared(attrs@),
            decreases self.cells.len() - i,
        {
            self.cells[i].clear(attrs);
            i = i + 1;
        }
        self.wrapped = false;
        self.kitty_placeholder = false;
        assert(self@.cells =~= old(self)@.cleared(attrs@).cells);
    }

    /// Returns whether a kitty graphics Unicode placeholder (U+10EEEE) may be
    /// present in this row.
    ///
    /// This is a conservative hint for renderers that map placeholders back to
    /// images: `false` means the row holds none, so the per-cell scan can be
    /// skipped; `true` means one was written since the row was last cleared,
    /// and may be stale if it has since been overwritten cell by cell.
    #[must_use]
    pub fn has_kitty_placeholder(&self) -> (r: bool)
        ensures
            r == self@.placeholder,
    {
        self.kitty_placeholder
    }

    pub fn mark_kitty_placeholder(&mut self)
        ensures
            final(self)@ == (RowModel { placeholder: true, ..old(self)@ }),
    {
        self.kitty_placeholder = true;
    }

    pub fn from_cells(cells: Vec<Cell>, wrapped: bool) -> (r: Self)
        ensures
            r@ == (RowModel { cells: cells_view(cells@), wrapped, placeholder: false }),
    {
        Row { cells, wrapped, kitty_placeholder: false }
    }

    pub fn is_blank(&self) -> (r: bool)
        ensures
            r == self@.is_blank(),
    {
        let blank = Cell::new();
        let mut i: usize = 0;
        while i < self.cells.len()
            invariant
                i <= self.cells.len(),
                blank@ == CellModel::blank(),
                forall|k: int| 0 <= k < i ==> #[trigger] self@.cells[k] == CellModel::blank(),
            decreases self.cells.len() - i,
        {
            assert(self@.cells[i as int] == self.cells@[i as int]@);
            if !self.cells[i].same(&blank) {
                return false;
            }
            i = i + 1;
        }
        true
    }

    /// The cells in the row, left to right.
    pub fn cells(&self) -> (r: &Vec<Cell>)
        ensures
            cells_view(r@) == self@.cells,
    {
        &self.cells
    }

    /// Returns the cell at `col`, if the row has that many columns.
    #[must_use]
    pub fn get(&self, col: u16) -> (r: Option<&Cell>)
        ensures
            match r {
                Some(cell) => col < self@.cells.len() && cell@ == self@.cells[col as int],
                None => col >= self@.cells.len(),
            },
    {
        if (col as usize) < self.cells.len() {
            Some(&self.cells[col as usize])
        } else {
            None
        }
    }

    pub fn get_mut(&mut self, col: u16) -> (r: Option<&mut Cell>)
        ensures
            match r {
                Some(cell) => col < old(self)@.cells.len() && cell@ == old(self)@.cells[col as int]
                    && final(self)@ == old(self)@.with_cell(col as int, final(cell)@),
                None => col >= old(self)@.cells.len() && final(self)@ == old(self)@,
            },
    {
        if (col as usize) < self.cells.len() {
            let i: usize = col as usize;
            let ghost before = self.cells@;
            let cell = &mut self.cells[i];
            assert(cells_view(before.update(i as int, *final(cell))) =~= cells_view(before).update(
                i as int,
                final(cell)@,
            ));
            Some(cell)
        } else {
            None
        }
    }

    pub fn insert(&mut self, i: u16, cell: Cell)
        requires
            i <= old(self)@.cells.len(),
        ensures
            final(self)@ == old(self)@.inserted(i as int, cell@),
    {
        self.cells.insert(i as usize, cell);
        self.wrapped = false;
        assert(self@.cells =~= old(self)@.cells.insert(i as int, cell@));
    }

    pub fn remove(&mut self, i: u16)
        requires
            i < old(self)@.cells.len(),
        ensures
            final(self)@ == old(self)@.removed(i as int),
    {
        self.clear_wide(i);
        let ghost before = self@.cells;
        assert(before.len() == self.cells@.len());
        self.cells.remove(i as usize);
        self.wrapped = false;
        assert(self@.cells =~= before.remove(i as int));
    }

    pub fn erase(&mut self, i: u16, attrs: Attrs)
        requires
            i < old(self)@.cells.len(),
        ensures
            final(self)@ == old(self)@.erased(i as int, attrs@),
    {
        let wide = self.cells[i as usize].is_wide();
        self.clear_wide(i);
        let ghost before = self@.cells;
        assert(before.len() == self.cells@.len());
        self.cells[i as usize].clear(attrs);
        assert(self@.cells =~= before.update(i as int, CellModel::cleared(attrs@)));
        let span: usize = if wide { 2 } else { 1 };
        if i as u64 + span as u64 == self.cells.len() as u64 {
            self.wrapped = false;
        }
    }

    pub fn truncate(&mut self, len: u16)
        requires
            0 < len <= old(self)@.cells.len(),
        ensures
            final(self)@ == old(self)@.truncated(len as int),
    {
        self.cells.truncate(len as usize);
        self.wrapped = false;
        assert(self@.cells =~= old(self)@.cells.take(len as int));
        let last: usize = len as usize - 1;
        if self.cells[last].is_wide() {
            let ghost before = self@.cells;
            let attrs = *self.cells[last].attrs();
            self.cells[last].clear(attrs);
            assert(self@.cells =~= before.update(last as int, CellModel::cleared(before[last as int].attrs)));
        }
    }

    pub fn resize(&mut self, len: u16, cell: Cell)
        ensures
            final(self)@ == old(self)@.resized(len as nat, cell@),
    {
        self.cells.truncate(len as usize);
        while self.cells.len() < len as usize
            invariant
                self.cells.len() <= len,
                self.cells.len() >= old(self).cells.len() || self.cells.len() == len,
                self.kitty_placeholder == old(self).kitty_placeholder,
                forall|k: int|
                    0 <= k < self.cells.len() ==> (#[trigger] self.cells@[k])@ == if k
                        < old(self).cells.len() {
                        old(self).cells@[k]@
                    } else {
                        cell@
                    },
            decreases len - self.cells.len(),
        {
            self.cells.push(cell.clone());
        }
        self.wrapped = false;
        assert(self@.cells =~= old(self)@.resized(len as nat, cell@).cells);
    }

    pub fn wrap(&mut self, wrap: bool)
        ensures
            final(self)@ == old(self)@.with_wrap(wrap),
    {
        self.wrapped = wrap;
    }

    /// Returns whether the text in this row continues onto the next row.
    #[must_use]
    pub fn wrapped(&self) -> (r: bool)
        ensures
            r == self@.wrapped,
    {
        self.wrapped
    }

    /// Clears the other half of the wide character at a column, if the column
    /// holds one half and the row the other.
    pub fn clear_wide(&mut self, col: u16)
        requires
            col < old(self)@.cells.len(),
        ensures
            final(self)@ == (RowModel {
                cells: other_half_cleared(old(self)@.cells, col as int),
                ..old(self)@
            }),
    {
        let i: usize = col as usize;
        assert(self@.cells[i as int] == self.cells@[i as int]@);
        let other: usize = if self.cells[i].is_wide() {
            if i + 1 < self.cells.len() {
                i + 1
            } else {
                return;
            }
        } else if self.cells[i].is_wide_continuation() && i > 0 {
            i - 1
        } else {
            return;
        };
        let attrs = *self.cells[other].attrs();
        self.cells[other].clear(attrs);
        assert(self@.cells =~= old(self)@.cells.update(
            other as int,
            CellModel::cleared(old(self)@.cells[other as int].attrs),
        ));
    }

    /// Draws a character. A wide character that it cuts in two goes.
    pub fn draw(&mut self, col: u16, c: char, wide: bool, attrs: Attrs)
        requires
            old(self)@.cells.len() <= u16::MAX,
            col < old(self)@.cells.len(),
            wide ==> col + 1 < old(self)@.cells.len(),
        ensures
            final(self)@ == row_drawn(old(self)@, col as int, c, wide, attrs@),
            final(self)@.cells.len() == old(self)@.cells.len(),
    {
        let i: usize = col as usize;
        let ghost start = self@;
        assert(start.cells.len() == self.cells@.len());
        assert(start.cells[i as int] == self.cells@[i as int]@);
        if self.cells[i].is_wide_continuation() && i > 0 {
            self.cells[i - 1].clear(attrs);
            assert(self@.cells =~= start.cells.update(i - 1, CellModel::cleared(attrs@)));
        }
        let ghost second = self@.cells;
        assert(second[i as int] == self.cells@[i as int]@);
        if self.cells[i].is_wide() && i + 1 < self.cells.len() {
            self.cells[i + 1].set_glyph(' ', false, attrs);
            assert(self@.cells =~= second.update(i + 1, CellModel::glyph(' ', false, attrs@)));
        }
        let ghost third = self@.cells;
        self.cells[i].set_glyph(c, wide, attrs);
        assert(self@.cells =~= third.update(i as int, CellModel::glyph(c, wide, attrs@)));
        // Remember that this row holds a kitty graphics placeholder, so that
        // renderers can skip rows without one.
        if c == KITTY_PLACEHOLDER {
            self.mark_kitty_placeholder();
        }
        if wide {
            self.continue_wide(col + 1, attrs);
        }
    }

    /// Puts the second half of a wide character at a column. A wide character
    /// that started there goes.
    fn continue_wide(&mut self, col: u16, attrs: Attrs)
        requires
            old(self)@.cells.len() <= u16::MAX,
            col < old(self)@.cells.len(),
        ensures
            final(self)@ == row_continued(old(self)@, col as int, attrs@),
            final(self)@.cells.len() == old(self)@.cells.len(),
    {
        let i: usize = col as usize;
        let ghost start = self@;
        assert(start.cells.len() == self.cells@.len());
        assert(start.cells[i as int] == self.cells@[i as int]@);
        if self.cells[i].is_wide() && i + 1 < self.cells.len() {
            self.cells[i + 1].clear(attrs);
            assert(self@.cells =~= start.cells.update(i + 1, CellModel::cleared(attrs@)));
            if i + 2 == self.cells.len() {
                self.wrapped = false;
            }
        }
        let ghost second = self@.cells;
        self.cells[i].clear(Attrs::default());
        self.cells[i].set_wide_continuation(true);
        assert(self@.cells =~= second.update(
            i as int,
            CellModel { continuation: true, ..CellModel::cleared(AttrsModel::plain()) },
        ));
    }

    /// Adds a character to the text of a cell, which becomes wide or narrow as
    /// asked, where it can.
    pub fn join(&mut self, col: u16, c: char, wide: bool, attrs: Attrs)
        requires
            old(self)@.cells.len() <= u16::MAX,
            col < old(self)@.cells.len(),
        ensures
            final(self)@ == row_joined(old(self)@, col as int, c, wide, attrs@),
            final(self)@.cells.len() == old(self)@.cells.len(),
    {
        let i: usize = col as usize;
        let ghost start = self@;
        assert(start.cells.len() == self.cells@.len());
        assert(start.cells[i as int] == self.cells@[i as int]@);
        if !self.cells[i].can_append(c) {
            return;
        }
        let was_wide = self.cells[i].is_wide();
        let ghost joined = start.cells[i as int].appended(c);
        self.cells[i].append(c);
        assert(self@.cells =~= start.with_cell(i as int, joined).cells);
        if wide && !was_wide && i + 1 < self.cells.len() {
            self.cells[i].set_wide(true);
            assert(self@.cells =~= start.with_cell(i as int, joined).with_cell(
                i as int,
                CellModel { wide: true, ..joined },
            ).cells);
            self.continue_wide(col + 1, attrs);
        } else if !wide && was_wide {
            self.cells[i].set_wide(false);
            let ghost narrow = start.with_cell(i as int, joined).with_cell(
                i as int,
                CellModel { wide: false, ..joined },
            );
            assert(self@.cells =~= narrow.cells);
            if i + 1 < self.cells.len() {
                assert(self@.cells[i + 1] == self.cells@[i + 1]@);
                if self.cells[i + 1].is_wide_continuation() {
                    let own = *self.cells[i].attrs();
                    self.cells[i + 1].clear(own);
                    assert(self@.cells =~= narrow.with_cell(
                        i + 1,
                        CellModel::cleared(start.cells[i as int].attrs),
                    ).cells);
                }
            }
        }
    }

    pub fn write_contents(&self, contents: &mut String, start: u16, width: u16, wrapping: bool)
        requires
            self@.cells.len() <= u16::MAX,
        ensures
            final(contents)@ == row_text(old(contents)@, self@, start as int, width as int, wrapping),
    {
        let len: u32 = self.cells.len() as u32;
        let end: u32 = if start as u32 > len {
            start as u32
        } else if start as u32 + (width as u32) < len {
            start as u32 + width as u32
        } else {
            len
        };
        let mut skip = false;
        let mut prev_col: u32 = start as u32;
        let mut col: u32 = start as u32;
        while col < end
            invariant
                start <= col <= end,
                col < end ==> end <= self.cells.len(),
                end <= 0x20000,
                self@.cells == cells_view(self.cells@),
                prev_col <= col + 2,
                !skip ==> prev_col <= col,
                skip ==> prev_col <= col + 1,
                text_read(old(contents)@, self@.cells, start as int, col as int) == (TextModel {
                    out: contents@,
                    col: prev_col as int,
                    skip,
                }),
            decreases end - col,
        {
            let cell = &self.cells[col as usize];
            if skip {
                skip = false;
            } else {
                skip = cell.is_wide();
                if cell.has_contents() {
                    let ghost before = contents@;
                    let ghost from = prev_col;
                    while prev_col < col
                        invariant
                            from <= prev_col <= col,
                            contents@ == before + spaces(prev_col - from),
                        decreases col - prev_col,
                    {
                        contents.append(" ");
                        proof {
                            reveal_strlit(" ");
                            assert(contents@ =~= before + spaces(prev_col + 1 - from));
                        }
                        prev_col = prev_col + 1;
                    }
                    assert(contents@ =~= before + spaces(col - from));
                    contents.append(cell.contents());
                    prev_col = prev_col + if cell.is_wide() { 2 } else { 1 };
                }
            }
            col = col + 1;
        }
        if prev_col == start as u32 && wrapping {
            contents.append("\n");
            proof {
                reveal_strlit("\n");
                assert(contents@ =~= text_read(old(contents)@, self@.cells, start as int, col as int).out.push('\n'));
            }
        }
    }

    /// Writes a span of the row out as terminal bytes for a cleared screen.
    /// Returns where they leave the cursor and the attributes.
    pub fn write_contents_formatted(
        &self,
        contents: &mut Vec<u8>,
        start: u16,
        width: u16,
        row: u16,
        wrapping: bool,
        prev_pos: Option<Pos>,
        prev_attrs: Option<Attrs>,
    ) -> (r: (Pos, Attrs))
        requires
            self@.cells.len() <= u16::MAX,
            start < self@.cells.len(),
            wrapping && prev_pos is None ==> row > 0,
        ensures
            ({
                let pen = row_formatted(
                    old(contents)@,
                    self@.cells,
                    start as int,
                    width as int,
                    row,
                    wrapping,
                    prev_pos,
                    match prev_attrs {
                        Some(attrs) => Some(attrs@),
                        None => None,
                    },
                );
                final(contents)@ == pen.out && r.0 == pen.pos && r.1@ == pen.attrs
            }),
    {
        let cols: u16 = self.cols();
        let default_cell = Cell::new();
        let mut pen = Pen {
            pos: match prev_pos {
                Some(pos) => pos,
                None => if wrapping {
                    Pos { row: row - 1, col: cols }
                } else {
                    Pos { row, col: start }
                },
            },
            attrs: match prev_attrs {
                Some(attrs) => attrs,
                None => Attrs::default(),
            },
            erase: None,
            last: None,
            skip: false,
        };
        assert(self@.cells[start as int] == self.cells@[start as int]@);
        if wrapping && self.cells[start as usize].same(&default_cell) {
            pen.wrap_onto_blank(contents, row);
        }
        let ghost ready = pen.model(contents@);
        let ghost shown = blank_cells(self@.cells.len());
        let end: u16 = if (cols - start) <= width { cols } else { start + width };
        let mut col: u16 = start;
        while col < end
            invariant
                start <= col <= end <= cols,
                cols == self@.cells.len(),
                self@.cells == cells_view(self.cells@),
                default_cell@ == CellModel::blank(),
                shown == blank_cells(self@.cells.len()),
                pen.erase matches Some((from, _)) ==> from <= col,
                pen.model(contents@) == ready.steps(
                    self@.cells,
                    shown,
                    row,
                    start as int,
                    col as int,
                    wrapping,
                ),
            decreases end - col,
        {
            let cell = &self.cells[col as usize];
            let changed = !cell.same(&default_cell);
            assert(shown[col as int] == default_cell@);
            pen.step(contents, cell, changed, Ghost(default_cell@), row, col, cols, wrapping);
            col = col + 1;
        }
        pen.flush(contents, row, None, cols, wrapping);
        (pen.pos, pen.attrs)
    }

    /// Writes out the terminal bytes that turn a span of the row `prev` into
    /// that of this row. Returns where they leave the cursor and the
    /// attributes.
    pub fn write_contents_diff(
        &self,
        contents: &mut Vec<u8>,
        prev: &Row,
        start: u16,
        width: u16,
        row: u16,
        wrapping: bool,
        prev_wrapping: bool,
        prev_pos: Pos,
        prev_attrs: Attrs,
    ) -> (r: (Pos, Attrs))
        requires
            self@.cells.len() <= u16::MAX,
            prev@.cells.len() <= u16::MAX,
            start < self@.cells.len(),
            start < prev@.cells.len(),
        ensures
            ({
                let pen = row_diff(
                    old(contents)@,
                    self@,
                    prev@,
                    start as int,
                    width as int,
                    row,
                    wrapping,
                    prev_wrapping,
                    prev_pos,
                    prev_attrs@,
                );
                final(contents)@ == pen.out && r.0 == pen.pos && r.1@ == pen.attrs
            }),
    {
        let cols: u16 = self.cols();
        let prev_cols: u16 = prev.cols();
        let shorter: u16 = if cols < prev_cols { cols } else { prev_cols };
        let mut pen = Pen { pos: prev_pos, attrs: prev_attrs, erase: None, last: None, skip: false };
        assert(self@.cells[start as int] == self.cells@[start as int]@);
        assert(prev@.cells[start as int] == prev.cells@[start as int]@);
        let first_cell = &self.cells[start as usize];
        if wrapping && !prev_wrapping && first_cell.same(&prev.cells[start as usize]) && prev_pos.row as u32
            + 1 == row as u32 && prev_pos.col >= cols - if first_cell.is_wide() { 1 } else { 0 } {
            pen.wrap_onto(contents, first_cell, row);
        }
        let ghost ready = pen.model(contents@);
        let end: u16 = if (shorter - start) <= width { shorter } else { start + width };
        let mut col: u16 = start;
        while col < end
            invariant
                start <= col <= end <= cols,
                end <= prev@.cells.len(),
                cols == self@.cells.len(),
                self@.cells == cells_view(self.cells@),
                prev@.cells == cells_view(prev.cells@),
                pen.erase matches Some((from, _)) ==> from <= col,
                pen.model(contents@) == ready.steps(
                    self@.cells,
                    prev@.cells,
                    row,
                    start as int,
                    col as int,
                    wrapping,
                ),
            decreases end - col,
        {
            let cell = &self.cells[col as usize];
            let prev_cell = &prev.cells[col as usize];
            let changed = !cell.same(prev_cell);
            pen.step(contents, cell, changed, Ghost(prev_cell@), row, col, cols, wrapping);
            col = col + 1;
        }
        pen.flush(contents, row, None, cols, wrapping);
        // A row that stops wrapping has its last character erased and redrawn,
        // which breaks the wrapping. A row that starts to wrap has it redrawn,
        // which leaves the cursor behind the end of the row, where text that
        // follows wraps.
        if self.wrapped != prev.wrapped {
            assert(self@.cells[cols - 1] == self.cells@[cols - 1]@);
            let end_col: u16 = if self.cells[cols as usize - 1].is_wide_continuation() && cols > 1 {
                cols - 2
            } else {
                cols - 1
            };
            assert(self@.cells[end_col as int] == self.cells@[end_col as int]@);
            pen.rewrap(contents, &self.cells[end_col as usize], row, end_col, self.wrapped);
        }
        (pen.pos, pen.attrs)
    }
}

/// The cursor and the attributes while a row is written out.
struct Pen<'a> {
    pos: Pos,
    attrs: Attrs,
    erase: Option<(u16, Attrs)>,
    last: Option<&'a str>,
    skip: bool,
}

impl<'a> Pen<'a> {
    closed spec fn model(self, out: Seq<u8>) -> PenModel {
        PenModel {
            out,
            pos: self.pos,
            attrs: self.attrs@,
            erase: match self.erase {
                Some((col, attrs)) => Some((col, attrs@)),
                None => None,
            },
            last: match self.last {
                Some(text) => Some(text@),
                None => None,
            },
            skip: self.skip,
        }
    }

    fn move_to(&mut self, contents: &mut Vec<u8>, pos: Pos)
        ensures
            final(self).model(final(contents)@) == old(self).model(old(contents)@).move_to(pos),
    {
        term::MoveFromTo::new(self.pos, pos).write_buf(contents);
        self.pos = pos;
    }

    fn recolor(&mut self, contents: &mut Vec<u8>, attrs: &Attrs)
        ensures
            final(self).model(final(contents)@) == old(self).model(old(contents)@).recolor(attrs@),
            final(self).erase == old(self).erase,
    {
        if !self.attrs.same(attrs) {
            attrs.write_escape_code_diff(contents, &self.attrs);
            self.attrs = *attrs;
        } else {
            proof {
                law_equal_attrs_write_nothing(attrs@);
                assert(contents@ =~= contents@ + attrs_diff(attrs@, self.attrs@));
            }
        }
    }

    fn flush(&mut self, contents: &mut Vec<u8>, row: u16, end: Option<u16>, cols: u16, wrapping: bool)
        requires
            match (old(self).erase, end) {
                (Some((col, _)), Some(end)) => col <= end,
                _ => true,
            },
        ensures
            final(self).model(final(contents)@) == old(self).model(old(contents)@).flushed(
                row,
                end,
                cols as int,
                wrapping,
            ),
    {
        if let Some((col, attrs)) = self.erase {
            let to = Pos { row, col };
            if wrapping && self.pos.row as u32 + 1 == row as u32 && self.pos.col >= cols {
                let ghost before = contents@;
                if col > 0 {
                    push_spaces(contents, col);
                } else {
                    term::push_str(contents, " ");
                    term::Backspace.write_buf(contents);
                    assert(contents@ =~= before + step_over_wrap());
                }
                self.pos = to;
            } else {
                self.move_to(contents, to);
            }
            self.recolor(contents, &attrs);
            match end {
                Some(end) => term::EraseChar::new(end - col).write_buf(contents),
                None => term::ClearRowForward.write_buf(contents),
            }
            self.erase = None;
        }
    }

    fn draw(
        &mut self,
        contents: &mut Vec<u8>,
        cell: &'a Cell,
        row: u16,
        col: u16,
        cols: u16,
        wrapping: bool,
    )
        requires
            cell@.text.len() > 0,
            cols > 0,
        ensures
            final(self).model(final(contents)@) == old(self).model(old(contents)@).draw(
                cell@,
                row,
                col,
                cols as int,
                wrapping,
            ),
    {
        let to = Pos { row, col };
        if to != self.pos {
            if !wrapping || self.pos.row as u32 + 1 != row as u32 || self.pos.col < cols
                - if cell.is_wide() { 1 } else { 0 } || col != 0 {
                self.move_to(contents, to);
            } else {
                self.pos = to;
            }
        }
        self.recolor(contents, cell.attrs());
        self.cluster_break(contents, to, cell.contents());
        term::push_str(contents, cell.contents());
        self.pos = Pos { row, col: col.saturating_add(if cell.is_wide() { 2 } else { 1 }) };
    }

    /// Writes an explicit cursor move before text that would otherwise join the
    /// grapheme cluster of the cell written just before it, so that replaying
    /// the bytes gives two cells again. Notes the text as written last.
    fn cluster_break(&mut self, contents: &mut Vec<u8>, pos: Pos, text: &'a str)
        requires
            text@.len() > 0,
        ensures
            ({
                let before = old(self).model(old(contents)@);
                let joins = match before.last {
                    Some(last) => !stands_apart(last, text@[0]),
                    None => false,
                };
                final(self).model(final(contents)@) == (PenModel {
                    last: Some(text@),
                    ..if joins { before.write(term::move_to(pos)) } else { before }
                })
            }),
    {
        if let Some(previous) = self.last {
            let first = text.get_char(0);
            if clusters_with(previous, first) {
                term::MoveTo::new(pos).write_buf(contents);
            }
        }
        self.last = Some(text);
    }

    fn wrap_onto_blank(&mut self, contents: &mut Vec<u8>, row: u16)
        ensures
            final(self).model(final(contents)@) == old(self).model(
                old(contents)@,
            ).wrapped_onto_blank(row),
            final(self).erase == old(self).erase,
    {
        self.recolor(contents, &Attrs::default());
        let ghost colored = contents@;
        term::push_str(contents, " ");
        term::Backspace.write_buf(contents);
        assert(contents@ =~= colored + step_over_wrap());
        term::EraseChar::new(1).write_buf(contents);
        self.pos = Pos { row, col: 0 };
    }

    fn wrap_onto(&mut self, contents: &mut Vec<u8>, first: &'a Cell, row: u16)
        ensures
            final(self).model(final(contents)@) == old(self).model(old(contents)@).wrapped_onto(
                first@,
                row,
            ),
            final(self).erase == old(self).erase,
    {
        self.recolor(contents, first.attrs());
        let need_erase = !first.has_contents();
        if need_erase {
            term::push_str(contents, " ");
        } else {
            term::push_str(contents, first.contents());
        }
        let ghost written = contents@;
        term::Backspace.write_buf(contents);
        if first.is_wide() {
            term::Backspace.write_buf(contents);
        }
        assert(contents@ =~= written + (encode_utf8("\x08"@) + (if first@.wide {
            encode_utf8("\x08"@)
        } else {
            Seq::empty()
        })));
        let ghost back = contents@;
        if need_erase {
            term::EraseChar::new(1).write_buf(contents);
        }
        assert(contents@ =~= back + (if need_erase { term::erase_char(1) } else { Seq::empty() }));
        self.pos = Pos { row, col: 0 };
    }

    fn rewrap(&mut self, contents: &mut Vec<u8>, cell: &'a Cell, row: u16, col: u16, wrapped: bool)
        ensures
            final(self).model(final(contents)@) == old(self).model(old(contents)@).rewrapped(
                cell@,
                row,
                col,
                wrapped,
            ),
    {
        self.move_to(contents, Pos { row, col });
        if !wrapped {
            term::EraseChar::new(1).write_buf(contents);
        }
        if cell.has_contents() {
            self.recolor(contents, cell.attrs());
            term::push_str(contents, cell.contents());
            self.pos = Pos { row, col: col.saturating_add(if cell.is_wide() { 2 } else { 1 }) };
        }
    }

    fn step(
        &mut self,
        contents: &mut Vec<u8>,
        cell: &'a Cell,
        changed: bool,
        Ghost(shown): Ghost<CellModel>,
        row: u16,
        col: u16,
        cols: u16,
        wrapping: bool,
    )
        requires
            changed == (cell@ != shown),
            cols > 0,
            old(self).erase matches Some((from, _)) ==> from <= col,
        ensures
            final(self).model(final(contents)@) == old(self).model(old(contents)@).step(
                cell@,
                shown,
                row,
                col,
                cols as int,
                wrapping,
            ),
            final(self).erase matches Some((from, _)) ==> from <= col,
    {
        if self.skip {
            self.skip = false;
            return;
        }
        self.skip = cell.is_wide();
        let ends_erasing = match &self.erase {
            Some((_, attrs)) => cell.has_contents() || !cell.attrs().same(attrs),
            None => false,
        };
        if ends_erasing {
            self.flush(contents, row, Some(col), cols, wrapping);
        }
        if changed {
            if cell.has_contents() {
                self.draw(contents, cell, row, col, cols, wrapping);
            } else if self.erase.is_none() {
                self.erase = Some((col, *cell.attrs()));
            }
        }
    }
}

/// Appends spaces to a buffer.
fn push_spaces(contents: &mut Vec<u8>, n: u16)
    ensures
        final(contents)@ == old(contents)@ + encode_utf8(spaces(n as int)),
{
    let mut i: u16 = 0;
    proof {
        assert(spaces(0) =~= Seq::<char>::empty());
        assert(contents@ =~= old(contents)@ + encode_utf8(spaces(0)));
    }
    while i < n
        invariant
            i <= n,
            contents@ == old(contents)@ + encode_utf8(spaces(i as int)),
        decreases n - i,
    {
        term::push_str(contents, " ");
        proof {
            reveal_strlit(" ");
            assert(" "@ =~= Seq::<char>::empty().push(' '));
            lemma_encode_push(Seq::empty(), ' ');
            assert(encode_utf8(Seq::<char>::empty()) =~= Seq::<u8>::empty());
            assert(encode_utf8(" "@) =~= vstd::utf8::encode_scalar(' ' as u32));
            lemma_encode_push(spaces(i as int), ' ');
            assert(spaces(i + 1) =~= spaces(i as int).push(' '));
            assert(contents@ =~= old(contents)@ + encode_utf8(spaces(i + 1)));
        }
        i = i + 1;
    }
}

} // verus!
