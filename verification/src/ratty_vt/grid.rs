//! The grid of cells: screen rows, scrollback, cursor and scroll region.

use crate::ratty_vt::attrs::{Attrs, AttrsModel};
use crate::ratty_vt::cell::{lemma_encode_push, Cell, CellModel};
use crate::ratty_vt::grid_model::{
    at_least_one, blank_tail_dropped, end_cell, filled_row_above, goto, history_fits,
    lemma_blank_tail_dropped, lemma_col_wrap, lemma_lines_deleted_by, lemma_lines_inserted_at, lemma_reflow_lines,
    lemma_reflowed, lemma_scrolled_up_by, lemma_visible, lemma_with_columns, line_breaks_trimmed,
    line_end, line_feeds, newest, redrawn, reflow_lines, row_cells_removed, rows_diff,
    rows_formatted, rows_text, same_frame, GridModel, ReflowModel, WrittenModel,
};
use crate::ratty_vt::reflow::{cursor_view, wrap_line};
use crate::ratty_vt::row::{cells_view, last_glyph_col, rows_view, Row, RowModel};
use crate::ratty_vt::screen_model::{lemma_joined_widens_within, owner_col};
use crate::ratty_vt::term::{self, BufWrite};
use crate::ratty_vt::unicode::{clusters_with, text_width, width_of_text};
use std::collections::VecDeque;
use vstd::prelude::*;
use vstd::string::*;
use vstd::utf8::encode_utf8;

verus! {

/// The size of a grid in cells.
#[derive(Copy, Clone, Debug, PartialEq, Eq, Structural)]
pub struct Size {
    pub rows: u16,
    pub cols: u16,
}

/// A position in a grid, counted from zero.
#[derive(Copy, Clone, Debug, PartialEq, Eq, Structural)]
pub struct Pos {
    pub row: u16,
    pub col: u16,
}

impl Default for Pos {
    fn default() -> (r: Self)
        ensures
            r == (Pos { row: 0, col: 0 }),
    {
        Pos { row: 0, col: 0 }
    }
}

/// `String::pop` removes the last character and returns it.
pub assume_specification[ String::pop ](s: &mut String) -> (r: Option<char>)
    ensures
        old(s)@.len() == 0 ==> r is None && final(s)@ == old(s)@,
        old(s)@.len() > 0 ==> r == Some(old(s)@.last()) && final(s)@ == old(s)@.drop_last(),
;

/// `String::push` appends one character.
pub assume_specification[ String::push ](s: &mut String, c: char)
    ensures
        final(s)@ == old(s)@.push(c),
;

#[derive(Debug)]
pub struct Grid {
    size: Size,
    pos: Pos,
    saved_pos: Pos,
    rows: Vec<Row>,
    scroll_top: u16,
    scroll_bottom: u16,
    origin_mode: bool,
    saved_origin_mode: bool,
    scrollback: VecDeque<Row>,
    scrollback_len: usize,
    scrollback_offset: usize,
}

impl View for Grid {
    type V = GridModel;

    closed spec fn view(&self) -> GridModel {
        GridModel {
            size: self.size,
            pos: self.pos,
            saved_pos: self.saved_pos,
            rows: rows_view(self.rows@),
            scroll_top: self.scroll_top,
            scroll_bottom: self.scroll_bottom,
            origin_mode: self.origin_mode,
            saved_origin_mode: self.saved_origin_mode,
            scrollback: rows_view(self.scrollback@),
            scrollback_len: self.scrollback_len,
            scrollback_offset: self.scrollback_offset,
        }
    }
}

impl Clone for Grid {
    fn clone(&self) -> (r: Self)
        ensures
            r@ == self@,
    {
        let mut rows: Vec<Row> = Vec::new();
        let mut i: usize = 0;
        while i < self.rows.len()
            invariant
                i <= self.rows.len(),
                rows.len() == i,
                forall|k: int| 0 <= k < i ==> (#[trigger] rows@[k])@ == self.rows@[k]@,
            decreases self.rows.len() - i,
        {
            rows.push(self.rows[i].clone());
            i = i + 1;
        }
        let mut scrollback: VecDeque<Row> = VecDeque::new();
        let mut i: usize = 0;
        while i < self.scrollback.len()
            invariant
                i <= self.scrollback.len(),
                scrollback.len() == i,
                forall|k: int| 0 <= k < i ==> (#[trigger] scrollback@[k])@ == self.scrollback@[k]@,
            decreases self.scrollback.len() - i,
        {
            scrollback.push_back(self.scrollback[i].clone());
            i = i + 1;
        }
        assert(rows_view(rows@) =~= rows_view(self.rows@));
        assert(rows_view(scrollback@) =~= rows_view(self.scrollback@));
        Grid {
            size: self.size,
            pos: self.pos,
            saved_pos: self.saved_pos,
            rows,
            scroll_top: self.scroll_top,
            scroll_bottom: self.scroll_bottom,
            origin_mode: self.origin_mode,
            saved_origin_mode: self.saved_origin_mode,
            scrollback,
            scrollback_len: self.scrollback_len,
            scrollback_offset: self.scrollback_offset,
        }
    }
}

impl Grid {
    pub fn new(size: Size, scrollback_len: usize) -> (r: Self)
        requires
            size.rows > 0,
            size.cols > 0,
        ensures
            r@ == GridModel::fresh(size, scrollback_len),
            r@.wf(),
    {
        let r = Grid {
            size,
            pos: Pos::default(),
            saved_pos: Pos::default(),
            rows: Vec::new(),
            scroll_top: 0,
            scroll_bottom: size.rows - 1,
            origin_mode: false,
            saved_origin_mode: false,
            scrollback: VecDeque::new(),
            scrollback_len,
            scrollback_offset: 0,
        };
        assert(r@.rows =~= Seq::<RowModel>::empty());
        assert(r@.scrollback =~= Seq::<RowModel>::empty());
        r
    }

    pub fn allocate_rows(&mut self)
        requires
            old(self)@.wf(),
        ensures
            final(self)@ == old(self)@.with_rows_allocated(),
            final(self)@.keeps_order(old(self)@),
            final(self)@.allocated(),
    {
        if self.rows.len() == 0 {
            let mut i: u16 = 0;
            while i < self.size.rows
                invariant
                    i <= self.size.rows,
                    self.rows.len() == i,
                    self.size == old(self).size,
                    forall|k: int| 0 <= k < i ==> (#[trigger] self.rows@[k])@ == old(self)@.blank_row(),
                    ({
                        let model = self@;
                        model == (GridModel { rows: model.rows, ..old(self)@ })
                    }),
                decreases self.size.rows - i,
            {
                let row = self.new_row();
                self.rows.push(row);
                i = i + 1;
            }
            assert(self@.rows =~= old(self)@.with_rows_allocated().rows);
        }
        assert(self.rows.len() == self@.rows.len());
    }

    pub fn new_row(&self) -> (r: Row)
        ensures
            r@ == self@.blank_row(),
    {
        Row::new(self.size.cols)
    }

    pub fn clear(&mut self)
        requires
            old(self)@.wf(),
        ensures
            final(self)@ == old(self)@.cleared(),
            final(self)@.keeps_order(old(self)@),
    {
        self.erase_all(Attrs::default());
        self.pos = Pos::default();
        self.saved_pos = Pos::default();
        self.scroll_top = 0;
        self.scroll_bottom = self.size.rows - 1;
        self.origin_mode = false;
        self.saved_origin_mode = false;
        assert(self@.rows =~= old(self)@.cleared().rows);
    }

    pub fn size(&self) -> (r: Size)
        ensures
            r == self@.size,
    {
        self.size
    }

    pub fn pos(&self) -> (r: Pos)
        ensures
            r == self@.pos,
    {
        self.pos
    }

    pub fn set_pos(&mut self, pos: Pos)
        requires
            old(self)@.wf(),
        ensures
            final(self)@ == old(self)@.moved_to(pos),
            final(self)@.keeps_order(old(self)@),
    {
        let row: u16 = if self.origin_mode {
            pos.row.saturating_add(self.scroll_top)
        } else {
            pos.row
        };
        self.pos = Pos { row, col: pos.col };
        self.row_clamp_top(self.origin_mode);
        self.row_clamp_bottom(self.origin_mode);
        self.col_clamp();
    }

    pub fn save_cursor(&mut self)
        requires
            old(self)@.wf(),
        ensures
            final(self)@ == old(self)@.cursor_saved(),
            final(self)@.keeps_order(old(self)@),
    {
        self.saved_pos = self.pos;
        self.saved_origin_mode = self.origin_mode;
    }

    pub fn restore_cursor(&mut self)
        requires
            old(self)@.wf(),
        ensures
            final(self)@ == old(self)@.cursor_restored(),
            final(self)@.keeps_order(old(self)@),
    {
        self.pos = self.saved_pos;
        self.origin_mode = self.saved_origin_mode;
    }

    /// The rows on view, top to bottom.
    pub fn visible_rows(&self) -> (r: Vec<&Row>)
        requires
            self@.wf(),
        ensures
            r@.len() == self@.visible().len(),
            forall|i: int| 0 <= i < r@.len() ==> (#[trigger] r@[i])@ == self@.visible()[i],
    {
        let mut r: Vec<&Row> = Vec::new();
        let mut i: usize = 0;
        assert(self@.rows.len() == self.rows@.len());
        assert(self@.scrollback.len() == self.scrollback@.len());
        while i < self.rows.len()
            invariant
                i <= self.rows.len(),
                r@.len() == i,
                self@.wf(),
                self@.rows == rows_view(self.rows@),
                self@.scrollback == rows_view(self.scrollback@),
                self@.scrollback_offset == self.scrollback_offset,
                forall|k: int| 0 <= k < i ==> (#[trigger] r@[k])@ == self@.visible()[k],
            decreases self.rows.len() - i,
        {
            let row = if i < self.scrollback_offset {
                &self.scrollback[self.scrollback.len() - self.scrollback_offset + i]
            } else {
                &self.rows[i - self.scrollback_offset]
            };
            r.push(row);
            i = i + 1;
        }
        r
    }

    /// The screen rows, whatever is on view.
    pub fn drawing_rows(&self) -> (r: &Vec<Row>)
        ensures
            rows_view(r@) == self@.rows,
    {
        &self.rows
    }

    pub fn drawing_rows_mut(&mut self) -> (r: &mut Vec<Row>)
        ensures
            rows_view(r@) == old(self)@.rows,
            final(self)@ == (GridModel { rows: rows_view(final(r)@), ..old(self)@ }),
    {
        &mut self.rows
    }

    /// The row on view at an index, from the top.
    pub fn visible_row(&self, row: u16) -> (r: Option<&Row>)
        requires
            self@.wf(),
        ensures
            match r {
                Some(found) => row < self@.rows.len() && found@ == self@.visible()[row as int],
                None => row >= self@.rows.len(),
            },
    {
        let row: usize = row as usize;
        assert(self@.rows.len() == self.rows@.len());
        assert(self@.scrollback.len() == self.scrollback@.len());
        if row >= self.rows.len() {
            return None;
        }
        let offset: usize = self.scrollback_offset;
        if row < offset {
            Some(&self.scrollback[self.scrollback.len() - offset + row])
        } else {
            Some(&self.rows[row - offset])
        }
    }

    pub fn drawing_row(&self, row: u16) -> (r: Option<&Row>)
        ensures
            match r {
                Some(found) => row < self@.rows.len() && found@ == self@.rows[row as int],
                None => row >= self@.rows.len(),
            },
    {
        if (row as usize) < self.rows.len() {
            Some(&self.rows[row as usize])
        } else {
            None
        }
    }

    pub fn drawing_row_mut(&mut self, row: u16) -> (r: Option<&mut Row>)
        ensures
            match r {
                Some(found) => row < old(self)@.rows.len() && found@ == old(self)@.rows[row as int]
                    && final(self)@ == old(self)@.with_row(row as int, final(found)@),
                None => row >= old(self)@.rows.len() && final(self)@ == old(self)@,
            },
    {
        if (row as usize) < self.rows.len() {
            let i: usize = row as usize;
            let ghost before = self.rows@;
            let found = &mut self.rows[i];
            assert(rows_view(before.update(i as int, *final(found))) =~= rows_view(before).update(
                i as int,
                final(found)@,
            ));
            Some(found)
        } else {
            None
        }
    }

    pub fn current_row_mut(&mut self) -> (r: &mut Row)
        requires
            old(self)@.wf(),
            old(self)@.allocated(),
        ensures
            r@ == old(self)@.current_row(),
            final(self)@ == old(self)@.with_current_row(final(r)@),
    {
        let i: usize = self.pos.row as usize;
        let ghost before = self.rows@;
        assert(before.len() == self@.rows.len());
        let found = &mut self.rows[i];
        assert(rows_view(before.update(i as int, *final(found))) =~= rows_view(before).update(
            i as int,
            final(found)@,
        ));
        found
    }

    pub fn visible_cell(&self, pos: Pos) -> (r: Option<&Cell>)
        requires
            self@.wf(),
        ensures
            match r {
                Some(cell) => pos.row < self@.rows.len() && pos.col
                    < self@.visible()[pos.row as int].cells.len() && cell@
                    == self@.visible()[pos.row as int].cells[pos.col as int],
                None => pos.row >= self@.rows.len() || pos.col
                    >= self@.visible()[pos.row as int].cells.len(),
            },
    {
        match self.visible_row(pos.row) {
            Some(row) => row.get(pos.col),
            None => None,
        }
    }

    pub fn drawing_cell(&self, pos: Pos) -> (r: Option<&Cell>)
        ensures
            match r {
                Some(cell) => pos.row < self@.rows.len() && pos.col
                    < self@.rows[pos.row as int].cells.len() && cell@
                    == self@.rows[pos.row as int].cells[pos.col as int],
                None => pos.row >= self@.rows.len() || pos.col
                    >= self@.rows[pos.row as int].cells.len(),
            },
    {
        match self.drawing_row(pos.row) {
            Some(row) => row.get(pos.col),
            None => None,
        }
    }

    pub fn drawing_cell_mut(&mut self, pos: Pos) -> (r: Option<&mut Cell>)
        ensures
            match r {
                Some(cell) => pos.row < old(self)@.rows.len() && pos.col
                    < old(self)@.rows[pos.row as int].cells.len() && cell@
                    == old(self)@.rows[pos.row as int].cells[pos.col as int] && final(self)@
                    == old(self)@.with_row(
                    pos.row as int,
                    old(self)@.rows[pos.row as int].with_cell(pos.col as int, final(cell)@),
                ),
                None => (pos.row >= old(self)@.rows.len() || pos.col
                    >= old(self)@.rows[pos.row as int].cells.len()) && final(self)@ == old(self)@,
            },
    {
        let ghost before = self@;
        if pos.row as usize >= self.rows.len() {
            return None;
        }
        match self.drawing_row_mut(pos.row) {
            Some(row) => {
                if (pos.col as usize) < row.cells().len() {
                    row.get_mut(pos.col)
                } else {
                    assert(before.with_row(pos.row as int, before.rows[pos.row as int]).rows =~= before.rows);
                    None
                }
            },
            None => None,
        }
    }

    /// How many rows the scrollback keeps.
    pub fn scrollback_len(&self) -> (r: usize)
        ensures
            r == self@.scrollback_len,
    {
        self.scrollback_len
    }

    /// How many rows the view is scrolled back.
    pub fn scrollback(&self) -> (r: usize)
        ensures
            r == self@.scrollback_offset,
    {
        self.scrollback_offset
    }

    pub fn set_scrollback(&mut self, rows: usize)
        requires
            old(self)@.wf(),
        ensures
            final(self)@ == old(self)@.scrolled_back(rows as int),
            final(self)@.keeps_order(old(self)@),
    {
        let len: usize = self.scrollback.len();
        assert(len == self@.scrollback.len());
        self.scrollback_offset = if rows < len { rows } else { len };
    }

    pub fn erase_all(&mut self, attrs: Attrs)
        requires
            old(self)@.wf(),
        ensures
            final(self)@ == old(self)@.erased_all(attrs@),
            final(self)@.keeps_order(old(self)@),
    {
        let len: usize = self.rows.len();
        self.clear_rows(0, len, attrs);
        assert(self@.rows =~= old(self)@.erased_all(attrs@).rows);
    }

    /// Clears the rows `from..to`.
    fn clear_rows(&mut self, from: usize, to: usize, attrs: Attrs)
        requires
            from <= to <= old(self)@.rows.len(),
        ensures
            final(self)@ == (GridModel {
                rows: Seq::new(
                    old(self)@.rows.len(),
                    |i: int|
                        if from <= i < to {
                            old(self)@.rows[i].cleared(attrs@)
                        } else {
                            old(self)@.rows[i]
                        },
                ),
                ..old(self)@
            }),
    {
        let mut i: usize = from;
        while i < to
            invariant
                from <= i <= to <= self.rows.len(),
                self.rows.len() == old(self).rows.len(),
                forall|k: int|
                    0 <= k < self.rows.len() ==> (#[trigger] self.rows@[k])@ == if from <= k < i {
                        old(self).rows@[k]@.cleared(attrs@)
                    } else {
                        old(self).rows@[k]@
                    },
                ({
                    let model = self@;
                    model == (GridModel { rows: model.rows, ..old(self)@ })
                }),
            decreases to - i,
        {
            self.rows[i].clear(attrs);
            i = i + 1;
        }
        assert(self@.rows =~= Seq::new(
            old(self)@.rows.len(),
            |i: int|
                if from <= i < to {
                    old(self)@.rows[i].cleared(attrs@)
                } else {
                    old(self)@.rows[i]
                },
        ));
    }

    pub fn in_scroll_region(&self) -> (r: bool)
        ensures
            r == self@.in_scroll_region(),
    {
        self.pos.row >= self.scroll_top && self.pos.row <= self.scroll_bottom
    }

    pub fn scroll_region_active(&self) -> (r: bool)
        requires
            self@.wf(),
        ensures
            r == self@.scroll_region_active(),
    {
        self.scroll_top != 0 || self.scroll_bottom != self.size.rows - 1
    }

    pub fn set_scroll_region(&mut self, top: u16, bottom: u16)
        requires
            old(self)@.wf(),
        ensures
            final(self)@ == old(self)@.with_scroll_region(top, bottom),
            final(self)@.keeps_order(old(self)@),
    {
        let last: u16 = self.size.rows - 1;
        let bottom: u16 = if bottom < last { bottom } else { last };
        if top < bottom {
            self.scroll_top = top;
            self.scroll_bottom = bottom;
        } else {
            self.scroll_top = 0;
            self.scroll_bottom = last;
        }
        self.pos = Pos { row: self.scroll_top, col: 0 };
    }

    pub fn set_origin_mode(&mut self, mode: bool)
        requires
            old(self)@.wf(),
        ensures
            final(self)@ == old(self)@.with_origin_mode(mode),
            final(self)@.keeps_order(old(self)@),
    {
        self.origin_mode = mode;
        self.set_pos(Pos { row: 0, col: 0 });
    }

    pub fn row_inc_clamp(&mut self, count: u16)
        requires
            old(self)@.wf(),
        ensures
            final(self)@ == old(self)@.row_inc_clamp(count as int),
            final(self)@.keeps_order(old(self)@),
    {
        let in_scroll_region = self.in_scroll_region();
        self.pos.row = self.pos.row.saturating_add(count);
        self.row_clamp_bottom(in_scroll_region);
    }

    pub fn row_dec_clamp(&mut self, count: u16)
        requires
            old(self)@.wf(),
        ensures
            final(self)@ == old(self)@.row_dec_clamp(count as int),
            final(self)@.keeps_order(old(self)@),
    {
        let in_scroll_region = self.in_scroll_region();
        self.pos.row = self.pos.row.saturating_sub(count);
        self.row_clamp_top(in_scroll_region);
    }

    pub fn row_set(&mut self, i: u16)
        requires
            old(self)@.wf(),
        ensures
            final(self)@ == old(self)@.row_set(i as int),
            final(self)@.keeps_order(old(self)@),
    {
        self.pos.row = i;
        self.row_clamp();
    }

    /// Moves the cursor right, at most behind the last column.
    pub fn col_inc(&mut self, count: u16)
        ensures
            final(self)@ == old(self)@.col_inc(count as int),
    {
        self.pos.col = self.pos.col.saturating_add(count);
    }

    pub fn col_inc_clamp(&mut self, count: u16)
        requires
            old(self)@.wf(),
        ensures
            final(self)@ == old(self)@.col_inc_clamp(count as int),
            final(self)@.keeps_order(old(self)@),
    {
        self.pos.col = self.pos.col.saturating_add(count);
        self.col_clamp();
    }

    pub fn col_dec(&mut self, count: u16)
        requires
            old(self)@.wf(),
        ensures
            final(self)@ == old(self)@.col_dec(count as int),
            final(self)@.keeps_order(old(self)@),
    {
        self.pos.col = self.pos.col.saturating_sub(count);
    }

    pub fn col_tab(&mut self)
        requires
            old(self)@.wf(),
        ensures
            final(self)@ == old(self)@.col_tab(),
            final(self)@.keeps_order(old(self)@),
    {
        let stop: u16 = self.pos.col - self.pos.col % 8;
        self.pos.col = stop.saturating_add(8);
        self.col_clamp();
    }

    pub fn col_set(&mut self, i: u16)
        requires
            old(self)@.wf(),
        ensures
            final(self)@ == old(self)@.col_set(i as int),
            final(self)@.keeps_order(old(self)@),
    {
        self.pos.col = i;
        self.col_clamp();
    }

    /// Moves a row into the scrollback, which keeps the newest rows.
    fn push_scrollback(&mut self, row: Row)
        requires
            old(self)@.scrollback.len() <= old(self)@.scrollback_len,
        ensures
            final(self)@ == old(self)@.with_history(row@),
    {
        if self.scrollback_len == 0 {
            return;
        }
        let ghost pushed = self.scrollback@.push(row);
        let ghost len = self.scrollback_len as int;
        self.scrollback.push_back(row);
        assert(rows_view(pushed) =~= old(self)@.scrollback.push(row@));
        while self.scrollback.len() > self.scrollback_len
            invariant
                self.scrollback@.len() <= pushed.len(),
                pushed.len() <= len + 1,
                len == self.scrollback_len,
                self.scrollback@ == pushed.subrange(pushed.len() - self.scrollback@.len(), pushed.len() as int),
                self.scrollback@.len() >= pushed.len() || self.scrollback@.len() == len,
                ({
                    let model = self@;
                    model == (GridModel { scrollback: model.scrollback, ..old(self)@ })
                }),
            decreases self.scrollback.len(),
        {
            let _ = self.scrollback.pop_front();
        }
        assert(self@.scrollback =~= old(self)@.with_history(row@).scrollback);
    }

    pub fn insert_lines(&mut self, count: u16)
        requires
            old(self)@.wf(),
            old(self)@.allocated(),
        ensures
            final(self)@ == old(self)@.lines_inserted(count as int),
            final(self)@.keeps_order(old(self)@),
    {
        let at: u16 = self.pos.row;
        self.insert_lines_at(at, count);
    }

    /// Inserts blank lines at a row; the last lines of the scroll region go.
    fn insert_lines_at(&mut self, at: u16, count: u16)
        requires
            old(self)@.wf(),
            old(self)@.allocated(),
            at < old(self)@.size.rows,
        ensures
            final(self)@ == old(self)@.lines_inserted_at(at as int, count as int),
            final(self)@.keeps_order(old(self)@),
    {
        let mut i: u16 = 0;
        while i < count
            invariant
                i <= count,
                at < self@.size.rows,
                at < old(self)@.size.rows,
                self@ == old(self)@.lines_inserted_at(at as int, i as int),
                self@.wf(),
                self@.allocated(),
                old(self)@.wf(),
                old(self)@.allocated(),
            decreases count - i,
        {
            let ghost before = self@;
            let bottom: usize = self.scroll_bottom as usize;
            assert(before.rows.len() == self.rows@.len());
            let row = self.new_row();
            let _ = self.rows.remove(bottom);
            self.rows.insert(at as usize, row);
            assert(rows_view(self.rows@) =~= before.rows.remove(bottom as int).insert(at as int, before.blank_row()));
            self.rows[bottom].wrap(false);
            assert(self@.rows =~= before.line_inserted(at as int).rows);
            i = i + 1;
            proof {
                lemma_lines_inserted_at(old(self)@, at as int, i as int);
            }
        }
        proof {
            lemma_lines_inserted_at(old(self)@, at as int, i as int);
        }
    }

    pub fn delete_lines(&mut self, count: u16)
        requires
            old(self)@.wf(),
            old(self)@.allocated(),
        ensures
            final(self)@ == old(self)@.lines_deleted(count as int),
            final(self)@.keeps_order(old(self)@),
    {
        let left: u16 = self.size.rows - self.pos.row;
        let count: u16 = if count < left { count } else { left };
        let mut i: u16 = 0;
        while i < count
            invariant
                i <= count,
                self@ == old(self)@.lines_deleted_by(i as int),
                self@.wf(),
                self@.allocated(),
                old(self)@.wf(),
                old(self)@.allocated(),
            decreases count - i,
        {
            let ghost before = self@;
            assert(before.rows.len() == self.rows@.len());
            let row = self.new_row();
            self.rows.insert(self.scroll_bottom as usize + 1, row);
            let _ = self.rows.remove(self.pos.row as usize);
            assert(self@.rows =~= before.line_deleted().rows);
            i = i + 1;
            proof {
                lemma_lines_deleted_by(old(self)@, i as int);
            }
        }
        proof {
            lemma_lines_deleted_by(old(self)@, i as int);
        }
    }

    pub fn scroll_up(&mut self, count: u16)
        requires
            old(self)@.wf(),
            old(self)@.allocated(),
        ensures
            final(self)@ == old(self)@.scrolled_up(count as int),
            final(self)@.keeps_order(old(self)@),
            same_frame(final(self)@, old(self)@),
    {
        let left: u16 = self.size.rows - self.scroll_top;
        let count: u16 = if count < left { count } else { left };
        let mut i: u16 = 0;
        while i < count
            invariant
                i <= count,
                self@ == old(self)@.scrolled_up_by(i as int),
                same_frame(self@, old(self)@),
                self@.wf(),
                self@.allocated(),
                old(self)@.wf(),
                old(self)@.allocated(),
            decreases count - i,
        {
            self.scroll_up_once();
            i = i + 1;
            proof {
                lemma_scrolled_up_by(old(self)@, i as int);
            }
        }
        proof {
            lemma_scrolled_up_by(old(self)@, i as int);
        }
    }

    fn scroll_up_once(&mut self)
        requires
            old(self)@.wf(),
            old(self)@.allocated(),
        ensures
            final(self)@ == old(self)@.scrolled_up_once(),
    {
        let ghost before = self@;
        assert(before.rows.len() == self.rows@.len());
        let row = self.new_row();
        self.rows.insert(self.scroll_bottom as usize + 1, row);
        let removed = self.rows.remove(self.scroll_top as usize);
        assert(removed@ == before.rows[before.scroll_top as int]);
        assert(self@.rows =~= before.rows.insert(before.scroll_bottom + 1, before.blank_row()).remove(
            before.scroll_top as int,
        ));
        if self.scrollback_len > 0 && !(self.scroll_top != 0 || self.scroll_bottom != self.size.rows - 1) {
            self.push_scrollback(removed);
            let len: usize = self.scrollback.len();
            assert(len == self@.scrollback.len());
            if self.scrollback_offset > 0 {
                self.scrollback_offset = if len <= self.scrollback_offset {
                    len
                } else {
                    self.scrollback_offset + 1
                };
            }
        }
    }

    pub fn scroll_down(&mut self, count: u16)
        requires
            old(self)@.wf(),
            old(self)@.allocated(),
        ensures
            final(self)@ == old(self)@.scrolled_down(count as int),
            final(self)@.keeps_order(old(self)@),
    {
        let top: u16 = self.scroll_top;
        self.insert_lines_at(top, count);
    }

    /// Moves the cursor down; what does not fit in the scroll region scrolls
    /// it. Returns by how many lines it scrolled.
    pub fn row_inc_scroll(&mut self, count: u16) -> (lines: u16)
        requires
            old(self)@.wf(),
            old(self)@.allocated(),
        ensures
            (final(self)@, lines as int) == old(self)@.row_inc_scroll(count as int),
            final(self)@.keeps_order(old(self)@),
    {
        let in_scroll_region = self.in_scroll_region();
        self.pos.row = self.pos.row.saturating_add(count);
        let lines: u16 = self.row_clamp_bottom(in_scroll_region);
        if in_scroll_region {
            self.scroll_up(lines);
            lines
        } else {
            0
        }
    }

    /// Moves the cursor up; what does not fit scrolls the region down.
    pub fn row_dec_scroll(&mut self, count: u16)
        requires
            old(self)@.wf(),
            old(self)@.allocated(),
        ensures
            final(self)@ == old(self)@.row_dec_scroll(count as int),
            final(self)@.keeps_order(old(self)@),
    {
        let in_scroll_region = self.in_scroll_region();
        // Account for clamping by both `row_clamp_top` and the subtraction.
        let extra_lines: u16 = count.saturating_sub(self.pos.row);
        self.pos.row = self.pos.row.saturating_sub(count);
        let lines: u16 = self.row_clamp_top(in_scroll_region);
        self.scroll_down(lines + extra_lines);
    }

    /// Moves the cursor to the next row, if fewer than `width` columns are left
    /// on this one.
    pub fn col_wrap(&mut self, width: u16, wrap: bool)
        requires
            old(self)@.wf(),
            old(self)@.allocated(),
            width <= old(self)@.size.cols,
        ensures
            final(self)@ == old(self)@.col_wrap(width as int, wrap),
            final(self)@.keeps_order(old(self)@),
    {
        if self.pos.col > self.size.cols - width {
            let prev_row: u16 = self.pos.row;
            self.pos.col = 0;
            let scrolled: u16 = self.row_inc_scroll(1);
            // A grid of one row scrolls its only row away here.
            let prev_row: u16 = prev_row.saturating_sub(scrolled);
            let wrapped = wrap && prev_row as u32 + 1 == self.pos.row as u32;
            let ghost moved = self@;
            assert(moved.rows.len() == self.rows@.len());
            self.rows[prev_row as usize].wrap(wrapped);
            assert(self@.rows =~= moved.with_row(
                prev_row as int,
                moved.rows[prev_row as int].with_wrap(wrapped),
            ).rows);
        }
    }

    pub fn erase_row(&mut self, attrs: Attrs)
        requires
            old(self)@.wf(),
            old(self)@.allocated(),
        ensures
            final(self)@ == old(self)@.erased_row(attrs@),
            final(self)@.keeps_order(old(self)@),
    {
        self.current_row_mut().clear(attrs);
    }

    /// Erases the cells of the columns `from..to` on the cursor's row.
    fn erase_cols(&mut self, from: u16, to: u16, attrs: Attrs)
        requires
            old(self)@.wf(),
            old(self)@.allocated(),
            to <= old(self)@.size.cols,
        ensures
            final(self)@ == old(self)@.erased_cols(from as int, to as int, attrs@),
            final(self)@.keeps_order(old(self)@),
    {
        let row = self.current_row_mut();
        let ghost before = row@;
        let mut col: u16 = from;
        while col < to
            invariant
                from <= col,
                from < to ==> col <= to,
                from >= to ==> col == from,
                to <= before.cells.len(),
                row@ == before.erased_range(from as int, col as int, attrs@),
                row@.cells.len() == before.cells.len(),
            decreases to - col,
        {
            row.erase(col, attrs);
            col = col + 1;
        }
    }

    pub fn erase_row_forward(&mut self, attrs: Attrs)
        requires
            old(self)@.wf(),
            old(self)@.allocated(),
        ensures
            final(self)@ == old(self)@.erased_row_forward(attrs@),
            final(self)@.keeps_order(old(self)@),
    {
        let (from, to): (u16, u16) = (self.pos.col, self.size.cols);
        self.erase_cols(from, to, attrs);
    }

    pub fn erase_row_backward(&mut self, attrs: Attrs)
        requires
            old(self)@.wf(),
            old(self)@.allocated(),
        ensures
            final(self)@ == old(self)@.erased_row_backward(attrs@),
            final(self)@.keeps_order(old(self)@),
    {
        let last: u16 = self.size.cols - 1;
        let to: u16 = if self.pos.col < last { self.pos.col } else { last };
        self.erase_cols(0, to + 1, attrs);
    }

    pub fn erase_all_forward(&mut self, attrs: Attrs)
        requires
            old(self)@.wf(),
            old(self)@.allocated(),
        ensures
            final(self)@ == old(self)@.erased_all_forward(attrs@),
            final(self)@.keeps_order(old(self)@),
    {
        let (from, to): (usize, usize) = (self.pos.row as usize + 1, self.rows.len());
        assert(to == self@.rows.len());
        self.clear_rows(from, to, attrs);
        proof {
            let cleared = Seq::new(
                old(self)@.rows.len(),
                |i: int|
                    if i > old(self)@.pos.row {
                        old(self)@.rows[i].cleared(attrs@)
                    } else {
                        old(self)@.rows[i]
                    },
            );
            assert(self@.rows =~= cleared);
        }
        self.erase_row_forward(attrs);
    }

    pub fn erase_all_backward(&mut self, attrs: Attrs)
        requires
            old(self)@.wf(),
            old(self)@.allocated(),
        ensures
            final(self)@ == old(self)@.erased_all_backward(attrs@),
            final(self)@.keeps_order(old(self)@),
    {
        let to: usize = self.pos.row as usize;
        assert(self.rows.len() == self@.rows.len());
        self.clear_rows(0, to, attrs);
        proof {
            let cleared = Seq::new(
                old(self)@.rows.len(),
                |i: int|
                    if i < old(self)@.pos.row {
                        old(self)@.rows[i].cleared(attrs@)
                    } else {
                        old(self)@.rows[i]
                    },
            );
            assert(self@.rows =~= cleared);
        }
        self.erase_row_backward(attrs);
    }

    pub fn erase_cells(&mut self, count: u16, attrs: Attrs)
        requires
            old(self)@.wf(),
            old(self)@.allocated(),
        ensures
            final(self)@ == old(self)@.erased_cells(count as int, attrs@),
            final(self)@.keeps_order(old(self)@),
    {
        let from: u16 = self.pos.col;
        let end: u16 = from.saturating_add(count);
        let to: u16 = if end < self.size.cols { end } else { self.size.cols };
        self.erase_cols(from, to, attrs);
    }

    /// Inserts blank cells at the cursor.
    pub fn insert_cells(&mut self, count: u16)
        requires
            old(self)@.wf(),
            old(self)@.allocated(),
        ensures
            final(self)@ == old(self)@.cells_inserted(count as int),
            final(self)@.keeps_order(old(self)@),
    {
        let ghost model = self@;
        let cols: u16 = self.size.cols;
        let col: u16 = self.pos.col;
        let row = self.current_row_mut();
        let ghost before = row@;
        let divides = col < cols && match row.get(col) {
            Some(cell) => cell.is_wide_continuation(),
            None => false,
        };
        let ghost head = before.cells.subrange(0, col as int);
        let ghost tail = before.cells.subrange(col as int, before.cells.len() as int);
        let ghost open_tail = tail.update(0, CellModel { continuation: false, ..tail[0] });
        let ghost added = |n: int|
            Seq::new(
                n as nat,
                |i: int| CellModel { continuation: divides && i == 0, ..CellModel::blank() },
            );
        let mut i: u16 = 0;
        assert(row@.cells =~= head + added(0) + tail);
        while i < count
            invariant
                i <= count,
                col <= cols,
                before.cells.len() == cols,
                divides == (col < cols && before.cells[col as int].continuation),
                head == before.cells.subrange(0, col as int),
                tail == before.cells.subrange(col as int, before.cells.len() as int),
                open_tail == tail.update(0, CellModel { continuation: false, ..tail[0] }),
                added == (|n: int|
                    Seq::new(
                        n as nat,
                        |i: int| CellModel { continuation: divides && i == 0, ..CellModel::blank() },
                    )),
                row@.cells == head + added(i as int) + (if divides && i > 0 { open_tail } else { tail }),
                row@.placeholder == before.placeholder,
            decreases count - i,
        {
            let ghost start = row@.cells;
            if divides {
                match row.get_mut(col) {
                    Some(cell) => cell.set_wide_continuation(false),
                    None => {},
                }
            }
            row.insert(col, Cell::new());
            if divides {
                match row.get_mut(col) {
                    Some(cell) => cell.set_wide_continuation(true),
                    None => {},
                }
            }
            i = i + 1;
            assert(row@.cells =~= head + added(i as int) + (if divides { open_tail } else { tail }));
        }
        row.truncate(cols);
        assert(row@ == model.cells_inserted(count as int).current_row());
    }

    /// Removes cells at the cursor.
    pub fn delete_cells(&mut self, count: u16)
        requires
            old(self)@.wf(),
            old(self)@.allocated(),
        ensures
            final(self)@ == old(self)@.cells_deleted(count as int),
            final(self)@.keeps_order(old(self)@),
    {
        let cols: u16 = self.size.cols;
        let col: u16 = self.pos.col;
        let left: u16 = cols - col;
        let count: u16 = if count < left { count } else { left };
        let row = self.current_row_mut();
        let ghost before = row@;
        let mut i: u16 = 0;
        while i < count
            invariant
                i <= count <= cols - col,
                before.cells.len() == cols,
                row@ == row_cells_removed(before, col as int, i as int),
                row@.cells.len() == before.cells.len() - i,
            decreases count - i,
        {
            row.remove(col);
            i = i + 1;
        }
        row.resize(cols, Cell::new());
    }

    /// Cuts off or fills up the rows and the grid.
    pub fn set_size(&mut self, size: Size)
        requires
            old(self)@.wf(),
            size.rows > 0,
            size.cols > 0,
        ensures
            final(self)@ == old(self)@.resized(size),
            final(self)@.wf(),
            final(self)@.allocated(),
    {
        let ghost before = self@;
        if self.scroll_bottom == self.size.rows - 1 {
            self.scroll_bottom = size.rows - 1;
        }
        self.size = size;
        let mut i: usize = 0;
        let ghost rows = self.rows@;
        let ghost start = self@;
        while i < self.rows.len()
            invariant
                i <= self.rows.len(),
                self.rows@.len() == rows.len(),
                forall|k: int|
                    0 <= k < rows.len() ==> (#[trigger] self.rows@[k])@ == if k < i {
                        rows[k]@.resized(size.cols as nat, CellModel::blank())
                    } else {
                        rows[k]@
                    },
                ({
                    let model = self@;
                    model == (GridModel { rows: model.rows, ..start })
                }),
            decreases self.rows.len() - i,
        {
            self.rows[i].resize(size.cols, Cell::new());
            i = i + 1;
        }
        self.rows.truncate(size.rows as usize);
        while self.rows.len() < size.rows as usize
            invariant
                self.rows@.len() <= size.rows,
                self.rows@.len() >= rows.len() || self.rows@.len() == size.rows,
                forall|k: int|
                    0 <= k < self.rows@.len() ==> (#[trigger] self.rows@[k])@ == if k < rows.len() {
                        rows[k]@.resized(size.cols as nat, CellModel::blank())
                    } else {
                        RowModel::blank(size.cols as nat)
                    },
                self.size == size,
                ({
                    let model = self@;
                    model == (GridModel { rows: model.rows, ..start })
                }),
            decreases size.rows - self.rows.len(),
        {
            let row = self.new_row();
            self.rows.push(row);
        }
        assert(self@.rows =~= before.resized(size).rows);
        if self.scroll_bottom >= size.rows {
            self.scroll_bottom = size.rows - 1;
        }
        if self.scroll_bottom < self.scroll_top {
            self.scroll_top = 0;
        }
        self.row_clamp_top(false);
        self.row_clamp_bottom(false);
        self.col_clamp();
        if self.saved_pos.row > self.size.rows - 1 {
            self.saved_pos.row = self.size.rows - 1;
        }
        if self.saved_pos.col > self.size.cols - 1 {
            self.saved_pos.col = self.size.cols - 1;
        }
    }

    /// Brings the positions back inside the grid and resets the scroll region.
    fn reset_after_resize(&mut self)
        requires
            old(self)@.size.rows > 0,
            old(self)@.size.cols > 0,
        ensures
            final(self)@ == old(self)@.after_resize(),
    {
        self.scroll_top = 0;
        self.scroll_bottom = self.size.rows - 1;
        let len: usize = self.scrollback.len();
        assert(len == self@.scrollback.len());
        if self.scrollback_offset > len {
            self.scrollback_offset = len;
        }
        self.row_clamp();
        // The column may sit one past the last cell after a character was
        // drawn in the last column; keep that state.
        if self.pos.col > self.size.cols {
            self.pos.col = self.size.cols;
        }
        if self.saved_pos.row > self.size.rows - 1 {
            self.saved_pos.row = self.size.rows - 1;
        }
        if self.saved_pos.col > self.size.cols - 1 {
            self.saved_pos.col = self.size.cols - 1;
        }
    }

    /// Resizes without wrapping lines anew, and resets the scroll region. This
    /// is for the alternate screen, whose applications redraw from scratch and
    /// would only be confused by rows that moved.
    pub fn set_size_plain(&mut self, size: Size)
        requires
            old(self)@.wf(),
        ensures
            final(self)@ == old(self)@.resized_plain(size),
            final(self)@.wf(),
            final(self)@.allocated(),
    {
        let size = Size {
            rows: if size.rows == 0 { 1 } else { size.rows },
            cols: if size.cols == 0 { 1 } else { size.cols },
        };
        self.set_size(size);
        self.reset_after_resize();
    }

    /// Changes the number of screen rows. Shrinking first drops blank rows
    /// below the cursor, then moves rows off the top into scrollback so that
    /// the cursor stays on screen, and drops rows below the cursor once that is
    /// at the top; growing pulls rows back out of scrollback before appending
    /// blank ones.
    fn set_row_count(&mut self, rows: u16)
        requires
            old(self)@.rows.len() > 0,
            rows > 0,
            old(self)@.scrollback.len() <= old(self)@.scrollback_len,
        ensures
            final(self)@ == old(self)@.with_row_count(rows as int),
    {
        let target: usize = rows as usize;
        let ghost dropped = self@.rows_dropped(target as int);
        while self.rows.len() > target
            invariant
                target > 0,
                target == rows,
                self@.rows_dropped(target as int) == dropped,
                self@.scrollback.len() <= self@.scrollback_len,
            decreases self.rows.len(),
        {
            let ghost before = self@;
            assert(before.rows.len() == self.rows@.len());
            let last: usize = self.rows.len() - 1;
            if last > self.pos.row as usize && (self.pos.row == 0 || self.rows[last].is_blank()) {
                let _ = self.rows.pop();
                assert(self@.rows =~= before.rows.drop_last());
            } else {
                let removed = self.rows.remove(0);
                assert(self@.rows =~= before.rows.remove(0));
                self.push_scrollback(removed);
                self.pos.row = self.pos.row.saturating_sub(1);
                self.saved_pos.row = self.saved_pos.row.saturating_sub(1);
            }
        }
        assert(self@.rows.len() == self.rows@.len());
        assert(self@ == dropped);
        let ghost added = dropped.rows_added(target as int);
        while self.rows.len() < target
            invariant
                self@.rows_added(target as int) == added,
            decreases target - self.rows.len(),
        {
            let ghost before = self@;
            assert(before.rows.len() == self.rows@.len());
            assert(before.scrollback.len() == self.scrollback@.len());
            if let Some(row) = self.scrollback.pop_back() {
                self.rows.insert(0, row);
                assert(self@.rows =~= before.rows.insert(0, before.scrollback.last()));
                assert(self@.scrollback =~= before.scrollback.drop_last());
                self.pos.row = self.pos.row.saturating_add(1);
                self.saved_pos.row = self.saved_pos.row.saturating_add(1);
            } else {
                let row = self.new_row();
                self.rows.push(row);
                assert(self@.rows =~= before.rows.push(before.blank_row()));
            }
        }
        assert(self@.rows.len() == self.rows@.len());
    }

    /// Wraps every logical line anew at another width. The cursor stays on its
    /// character and its row on the screen.
    fn reflow_columns(&mut self, cols: u16)
        requires
            old(self)@.wf(),
            old(self)@.rows.len() > 0,
            cols > 0,
        ensures
            final(self)@ == old(self)@.with_columns(cols),
    {
        let ghost model = self@;
        let screen_rows: usize = self.rows.len();
        let history: usize = self.scrollback.len();
        assert(screen_rows == model.rows.len());
        assert(history == model.scrollback.len());
        let cursor_col: u16 = self.pos.col;
        let all = self.take_all_rows();
        let ghost whole = model.scrollback + model.rows;
        let cursor_abs: usize = (all.len() - screen_rows) + self.pos.row as usize;
        let mut out: Vec<Row> = Vec::new();
        let mut cursor: Option<(usize, u16)> = None;
        let mut start: usize = 0;
        let ghost lines = reflow_lines(
            whole,
            0,
            cursor_abs as int,
            cursor_col as int,
            cols as int,
            ReflowModel { out: Seq::empty(), cursor: None },
        );
        assert(rows_view(out@) =~= Seq::<RowModel>::empty());
        while start < all.len()
            invariant
                start <= all.len(),
                cols > 0,
                whole == rows_view(all@),
                reflow_lines(
                    whole,
                    start as int,
                    cursor_abs as int,
                    cursor_col as int,
                    cols as int,
                    ReflowModel { out: rows_view(out@), cursor: cursor_view(cursor) },
                ) == lines,
            decreases all.len() - start,
        {
            let mut end: usize = start;
            while end + 1 < all.len() && all[end].wrapped()
                invariant
                    start <= end < all.len(),
                    whole == rows_view(all@),
                    line_end(whole, start as int) == line_end(whole, end as int),
                decreases all.len() - end,
            {
                end = end + 1;
            }
            cursor = wrap_line(&all, start, end, cursor_abs, cursor_col, cols, &mut out, cursor);
            start = end + 1;
        }
        proof {
            lemma_reflow_lines(
                whole,
                0,
                cursor_abs as int,
                cursor_col as int,
                cols as int,
                ReflowModel { out: Seq::empty(), cursor: None },
            );
            assert(out@.len() == lines.out.len());
        }
        let (cursor_row, cursor_col): (usize, u16) = match cursor {
            Some((row, col)) => (row, col),
            None => (out.len() - 1, 0),
        };
        let ghost kept = blank_tail_dropped(lines.out, screen_rows as int, cursor_row as int);
        // Blank rows below the cursor are dropped first, so that a mostly
        // empty screen does not push its text into scrollback just because
        // its lines got longer.
        while out.len() > screen_rows && out.len() - 1 > cursor_row && out[out.len() - 1].is_blank()
            invariant
                cursor_row < out@.len(),
                blank_tail_dropped(rows_view(out@), screen_rows as int, cursor_row as int) == kept,
            decreases out.len(),
        {
            let ghost before = rows_view(out@);
            let _ = out.pop();
            assert(rows_view(out@) =~= before.drop_last());
        }
        proof {
            lemma_blank_tail_dropped(lines.out, screen_rows as int, cursor_row as int);
            if out@.len() > screen_rows && out@.len() - 1 > cursor_row {
                assert(rows_view(out@).last() == out@[out@.len() - 1]@);
            }
            assert(rows_view(out@) == kept);
            assert(out@.len() == kept.len());
        }
        let total: usize = out.len();
        let over: usize = if total > screen_rows { total - screen_rows } else { 0 };
        let screen_start: usize = if over < cursor_row { over } else { cursor_row };
        let mut screen = out.split_off(screen_start);
        screen.truncate(screen_rows);
        while screen.len() < screen_rows
            invariant
                screen@.len() <= screen_rows,
                screen_start + screen@.len() >= kept.len() || screen@.len() == screen_rows,
                forall|i: int|
                    0 <= i < screen@.len() ==> (#[trigger] screen@[i])@ == if screen_start + i < kept.len() {
                        kept[screen_start + i]
                    } else {
                        RowModel::blank(cols as nat)
                    },
            decreases screen_rows - screen.len(),
        {
            screen.push(Row::new(cols));
        }
        assert(rows_view(out@) =~= kept.take(screen_start as int));
        self.keep_rows(out);
        self.rows = screen;
        self.size.cols = cols;
        self.pos = Pos { row: (cursor_row - screen_start) as u16, col: cursor_col };
        proof {
            assert(self@.rows =~= model.with_columns(cols).rows);
            assert(self@.scrollback =~= model.with_columns(cols).scrollback);
        }
    }

    /// Takes the rows of scrollback and screen out of the grid.
    fn take_all_rows(&mut self) -> (all: Vec<Row>)
        ensures
            rows_view(all@) == old(self)@.scrollback + old(self)@.rows,
            final(self)@ == (GridModel {
                rows: Seq::empty(),
                scrollback: Seq::empty(),
                ..old(self)@
            }),
    {
        let mut all: Vec<Row> = Vec::new();
        let ghost history = self.scrollback@;
        while self.scrollback.len() > 0
            invariant
                all@ + self.scrollback@ =~= history,
                self.rows == old(self).rows,
                ({
                    let model = self@;
                    model == (GridModel { scrollback: model.scrollback, ..old(self)@ })
                }),
            decreases self.scrollback.len(),
        {
            if let Some(row) = self.scrollback.pop_front() {
                all.push(row);
            }
        }
        assert(all@ =~= history);
        all.append(&mut self.rows);
        assert(rows_view(all@) =~= old(self)@.scrollback + old(self)@.rows);
        assert(self@.rows =~= Seq::<RowModel>::empty());
        assert(self@.scrollback =~= Seq::<RowModel>::empty());
        all
    }

    /// Fills an empty scrollback with the newest of some rows.
    fn keep_rows(&mut self, rows: Vec<Row>)
        requires
            old(self)@.scrollback.len() == 0,
        ensures
            final(self)@ == (GridModel {
                scrollback: newest(rows_view(rows@), old(self)@.scrollback_len as int),
                ..old(self)@
            }),
    {
        let ghost model = rows_view(rows@);
        let ghost len = self.scrollback_len as int;
        let mut rows = rows;
        let mut i: usize = 0;
        assert(self@.scrollback =~= newest(model.take(0), len));
        while i < rows.len()
            invariant
                i <= rows@.len(),
                rows@.len() == model.len(),
                len == old(self)@.scrollback_len,
                forall|k: int| i <= k < rows@.len() ==> (#[trigger] rows@[k])@ == model[k],
                self@ == (GridModel { scrollback: newest(model.take(i as int), len), ..old(self)@ }),
            decreases rows.len() - i,
        {
            let mut row = Row::new(0);
            core::mem::swap(&mut rows[i], &mut row);
            let ghost before = self@;
            self.push_scrollback(row);
            i = i + 1;
            assert(model.take(i as int) =~= model.take(i - 1).push(model[i - 1]));
            assert(self@.scrollback =~= newest(model.take(i as int), len));
        }
        assert(model.take(i as int) =~= model);
    }

    /// Resizes the grid: consecutive wrapped rows count as one logical line,
    /// every line (scrollback too) is wrapped anew at the new width, rows move
    /// between screen and scrollback when the row count changes, the cursor
    /// stays on its character, and the scroll region is reset.
    pub fn set_size_reflow(&mut self, size: Size)
        requires
            old(self)@.wf(),
            old(self)@.uniform() || at_least_one(size.cols) != old(self)@.size.cols,
        ensures
            final(self)@ == old(self)@.reflowed(size),
            final(self)@.wf(),
            old(self)@.allocated() ==> final(self)@.allocated() && final(self)@.uniform(),
    {
        proof {
            lemma_reflowed(self@, size);
        }
        let size = Size {
            rows: if size.rows == 0 { 1 } else { size.rows },
            cols: if size.cols == 0 { 1 } else { size.cols },
        };
        assert(self@.rows.len() == self.rows@.len());
        if self.rows.len() == 0 {
            // Never allocated: there is nothing to wrap, and `allocate_rows`
            // will use the new size.
            self.size = size;
            self.reset_after_resize();
            return;
        }
        if size.cols != self.size.cols {
            proof {
                lemma_with_columns(self@, size.cols);
            }
            self.reflow_columns(size.cols);
        }
        self.set_row_count(size.rows);
        self.size = size;
        self.reset_after_resize();
    }

    /// Adds the visible text; line breaks at the end are left out.
    pub fn write_contents(&self, contents: &mut String)
        requires
            self@.wf(),
        ensures
            final(contents)@ == self@.text(old(contents)@),
    {
        let rows = self.visible_rows();
        let ghost model = self@.visible();
        proof {
            lemma_visible(self@);
        }
        let mut wrapping = false;
        let mut i: usize = 0;
        while i < rows.len()
            invariant
                i <= rows@.len(),
                rows@.len() == model.len(),
                self@.wf(),
                model == self@.visible(),
                forall|k: int| 0 <= k < rows@.len() ==> (#[trigger] rows@[k])@ == model[k],
                forall|k: int| 0 <= k < model.len() ==> history_fits(#[trigger] model[k]),
                rows_text(old(contents)@, model, i as int, self@.size.cols as int) == (contents@, wrapping),
            decreases rows.len() - i,
        {
            let row: &Row = rows[i];
            row.write_contents(contents, 0, self.size.cols, wrapping);
            if !row.wrapped() {
                let ghost before = contents@;
                contents.append("\n");
                proof {
                    reveal_strlit("\n");
                    assert(contents@ =~= before.push('\n'));
                }
            }
            wrapping = row.wrapped();
            i = i + 1;
        }
        let ghost whole = contents@;
        loop
            invariant
                line_breaks_trimmed(contents@) == line_breaks_trimmed(whole),
            ensures
                contents@ == line_breaks_trimmed(whole),
            decreases contents@.len(),
        {
            let ghost before = contents@;
            match contents.pop() {
                Some(c) => {
                    if c != '\n' {
                        contents.push(c);
                        assert(contents@ =~= before);
                        break;
                    }
                },
                None => {
                    break;
                },
            }
        }
    }

    /// Writes the visible rows out as terminal bytes for a cleared screen.
    /// Returns the attributes that they leave.
    #[verifier::rlimit(40)]
    pub fn write_contents_formatted(&self, contents: &mut Vec<u8>) -> (r: Attrs)
        requires
            self@.wf(),
            self@.allocated(),
        ensures
            final(contents)@ == self@.formatted(old(contents)@).out,
            r@ == self@.formatted(old(contents)@).attrs,
    {
        term::ClearAttrs.write_buf(contents);
        term::ClearScreen.write_buf(contents);
        let mut prev_attrs = Attrs::default();
        let mut prev_pos = Pos::default();
        let mut wrapping = false;
        let rows = self.visible_rows();
        let ghost model = self@.visible();
        let ghost start = WrittenModel {
            out: contents@,
            pos: prev_pos,
            attrs: prev_attrs@,
            wrapping: false,
            prev_wrapping: false,
        };
        proof {
            lemma_visible(self@);
        }
        let mut i: usize = 0;
        while i < rows.len()
            invariant
                i <= rows@.len() <= u16::MAX,
                rows@.len() == model.len(),
                self@.wf(),
                model == self@.visible(),
                forall|k: int| 0 <= k < rows@.len() ==> (#[trigger] rows@[k])@ == model[k],
                forall|k: int| 0 <= k < model.len() ==> history_fits(#[trigger] model[k]),
                rows_formatted(start, model, i as int, self@.size.cols as int) == (WrittenModel {
                    out: contents@,
                    pos: prev_pos,
                    attrs: prev_attrs@,
                    wrapping,
                    prev_wrapping: false,
                }),
            decreases rows.len() - i,
        {
            let row: &Row = rows[i];
            let (new_pos, new_attrs) = row.write_contents_formatted(
                contents,
                0,
                self.size.cols,
                i as u16,
                wrapping,
                Some(prev_pos),
                Some(prev_attrs),
            );
            prev_pos = new_pos;
            prev_attrs = new_attrs;
            wrapping = row.wrapped();
            i = i + 1;
        }
        self.write_cursor_position_formatted(contents, Some(prev_pos), Some(prev_attrs));
        prev_attrs
    }

    /// Writes out the terminal bytes that turn the visible rows of `prev` into
    /// those of this grid. Returns the attributes that they leave.
    #[verifier::rlimit(40)]
    pub fn write_contents_diff(&self, contents: &mut Vec<u8>, prev: &Grid, prev_attrs: Attrs) -> (r: Attrs)
        requires
            self@.wf(),
            self@.allocated(),
            prev@.wf(),
        ensures
            final(contents)@ == self@.diff(old(contents)@, prev@, prev_attrs@).out,
            r@ == self@.diff(old(contents)@, prev@, prev_attrs@).attrs,
    {
        let mut prev_attrs = prev_attrs;
        let mut prev_pos = prev.pos;
        let mut wrapping = false;
        let mut prev_wrapping = false;
        let rows = self.visible_rows();
        let prev_rows = prev.visible_rows();
        let ghost model = self@.visible();
        let ghost prev_model = prev@.visible();
        let ghost start = WrittenModel {
            out: contents@,
            pos: prev_pos,
            attrs: prev_attrs@,
            wrapping: false,
            prev_wrapping: false,
        };
        proof {
            lemma_visible(self@);
            lemma_visible(prev@);
        }
        let n: usize = if rows.len() < prev_rows.len() { rows.len() } else { prev_rows.len() };
        let mut i: usize = 0;
        while i < n
            invariant
                i <= n <= u16::MAX,
                n <= rows@.len() == model.len(),
                n <= prev_rows@.len() == prev_model.len(),
                self@.wf(),
                forall|k: int| 0 <= k < rows@.len() ==> (#[trigger] rows@[k])@ == model[k],
                forall|k: int| 0 <= k < model.len() ==> history_fits(#[trigger] model[k]),
                forall|k: int| 0 <= k < prev_rows@.len() ==> (#[trigger] prev_rows@[k])@ == prev_model[k],
                forall|k: int| 0 <= k < prev_model.len() ==> history_fits(#[trigger] prev_model[k]),
                rows_diff(start, model, prev_model, i as int, self@.size.cols as int) == (WrittenModel {
                    out: contents@,
                    pos: prev_pos,
                    attrs: prev_attrs@,
                    wrapping,
                    prev_wrapping,
                }),
            decreases n - i,
        {
            let row: &Row = rows[i];
            let prev_row: &Row = prev_rows[i];
            let (new_pos, new_attrs) = row.write_contents_diff(
                contents,
                prev_row,
                0,
                self.size.cols,
                i as u16,
                wrapping,
                prev_wrapping,
                prev_pos,
                prev_attrs,
            );
            prev_pos = new_pos;
            prev_attrs = new_attrs;
            wrapping = row.wrapped();
            prev_wrapping = prev_row.wrapped();
            i = i + 1;
        }
        self.write_cursor_position_formatted(contents, Some(prev_pos), Some(prev_attrs));
        prev_attrs
    }

    /// The cell that ends a screen row, and its column.
    fn end_of_row(&self, row: u16) -> (r: (u16, &Cell))
        requires
            self@.wf(),
            row < self@.rows.len(),
        ensures
            r.0 == last_glyph_col(self@.rows[row as int].cells),
            r.1@ == end_cell(self@.rows[row as int]),
    {
        let cells = self.rows[row as usize].cells();
        let ghost model = self@.rows[row as int].cells;
        assert(cells_view(cells@) == model);
        let last: usize = cells.len() - 1;
        assert(model[last as int] == cells@[last as int]@);
        let col: usize = if cells[last].is_wide_continuation() && cells.len() > 1 {
            last - 1
        } else {
            last
        };
        assert(model[col as int] == cells@[col as int]@);
        (col as u16, &cells[col])
    }

    /// Draws a cell again at its place and puts the attributes back.
    fn redraw(
        contents: &mut Vec<u8>,
        from: Option<Pos>,
        to: Pos,
        cell: &Cell,
        attrs: &Attrs,
    )
        ensures
            final(contents)@ == redrawn(old(contents)@, from, to, cell@, attrs@),
    {
        Grid::go(contents, from, to);
        cell.attrs().write_escape_code_diff(contents, attrs);
        term::push_str(contents, cell.contents());
        attrs.write_escape_code_diff(contents, cell.attrs());
    }

    /// Moves the cursor from where it is, if that is known.
    fn go(contents: &mut Vec<u8>, from: Option<Pos>, to: Pos)
        ensures
            final(contents)@ == old(contents)@ + goto(from, to),
    {
        match from {
            Some(from) => term::MoveFromTo::new(from, to).write_buf(contents),
            None => term::MoveTo::new(to).write_buf(contents),
        }
    }

    /// Writes out the terminal bytes that put the cursor in its place.
    ///
    /// Writing a character to the last column of a row does not wrap the cursor
    /// at once: it waits until the next character is drawn. The cursor can only
    /// get there by drawing, so the character that ends the row is drawn again.
    /// Without one, the cursor came there by line feeds from a row above.
    pub fn write_cursor_position_formatted(
        &self,
        contents: &mut Vec<u8>,
        prev_pos: Option<Pos>,
        prev_attrs: Option<Attrs>,
    )
        requires
            self@.wf(),
            self@.allocated(),
        ensures
            final(contents)@ == self@.cursor_formatted(
                old(contents)@,
                prev_pos,
                match prev_attrs {
                    Some(attrs) => Some(attrs@),
                    None => None,
                },
            ),
    {
        let attrs = match prev_attrs {
            Some(attrs) => attrs,
            None => Attrs::default(),
        };
        let there = match prev_pos {
            Some(pos) => pos == self.pos,
            None => false,
        };
        if there || self.pos.col < self.size.cols {
            Grid::go(contents, prev_pos, self.pos);
            return;
        }
        let (end_col, end) = self.end_of_row(self.pos.row);
        if end.has_contents() {
            Grid::redraw(contents, prev_pos, Pos { row: self.pos.row, col: end_col }, end, &attrs);
            return;
        }
        let ghost model = self@;
        let mut i: u16 = self.pos.row;
        while i > 0
            invariant
                i <= self.pos.row,
                model == self@,
                self.pos == model.pos,
                self.size == model.size,
                model.wf(),
                model.allocated(),
                prev_pos != Some(model.pos),
                model.pos.col >= model.size.cols,
                end_cell(model.current_row()).text.len() == 0,
                contents@ == old(contents)@,
                attrs@ == (match prev_attrs {
                    Some(attrs) => attrs@,
                    None => AttrsModel::plain(),
                }),
                filled_row_above(model.rows, model.pos.row as int) == filled_row_above(model.rows, i as int),
            decreases i,
        {
            i = i - 1;
            let (col, cell) = self.end_of_row(i);
            if cell.has_contents() {
                let waiting = match prev_pos {
                    Some(pos) => pos.row == i && pos.col >= self.size.cols,
                    None => false,
                };
                if !waiting {
                    Grid::redraw(contents, prev_pos, Pos { row: i, col }, cell, &attrs);
                }
                push_line_feeds(contents, self.pos.row - i);
                return;
            }
        }
        // The end of the row was cleared without moving the cursor, so it holds
        // nothing and can be overwritten.
        let to = Pos { row: self.pos.row, col: self.size.cols - 1 };
        assert(model.rows.len() == self.rows@.len());
        let cells = self.rows[self.pos.row as usize].cells();
        assert(cells_view(cells@) == model.current_row().cells);
        let last = &cells[to.col as usize];
        assert(model.current_row().cells[to.col as int] == cells@[to.col as int]@);
        Grid::go(contents, prev_pos, to);
        term::push_str(contents, " ");
        // The cell has no text, but it may have drawing attributes.
        last.attrs().write_escape_code_diff(contents, &attrs);
        term::SaveCursor.write_buf(contents);
        term::Backspace.write_buf(contents);
        term::EraseChar::new(1).write_buf(contents);
        term::RestoreCursor.write_buf(contents);
        attrs.write_escape_code_diff(contents, last.attrs());
    }

    /// Draws a character at the cursor across some columns.
    pub fn draw(&mut self, c: char, width: u16, attrs: Attrs)
        requires
            old(self)@.wf(),
            old(self)@.allocated(),
            0 < width <= old(self)@.size.cols,
        ensures
            final(self)@ == old(self)@.drawn(c, width as int, attrs@),
            final(self)@.keeps_order(old(self)@),
    {
        // Text wraps only behind a row whose last column has contents. A
        // character that finds too few columns left moves to the next row
        // without wrapping.
        let mut wrap = false;
        if self.pos.col > self.size.cols - width {
            if let Some(last) = self.drawing_cell(
                Pos { row: self.pos.row, col: self.size.cols - 1 },
            ) {
                wrap = last.has_contents() || last.is_wide_continuation();
            }
        }
        self.col_wrap(width, wrap);
        let ghost ready = self@;
        let pos = self.pos;
        proof {
            lemma_col_wrap(old(self)@, width as int, wrap);
        }
        self.current_row_mut().draw(pos.col, c, width > 1, attrs);
        self.pos.col = pos.col + if width > 1 { 2 } else { 1 };
        assert(self@.rows =~= old(self)@.drawn(c, width as int, attrs@).rows);
    }

    /// The cell that a mark without a width of its own belongs to.
    pub fn mark_target(&self) -> (r: Option<Pos>)
        requires
            self@.wf(),
            self@.allocated(),
        ensures
            r == self@.mark_target(),
            r matches Some(at) ==> at.row < self@.size.rows && at.col < self@.size.cols,
    {
        if self.pos.col > 0 {
            Some(self.owner_before_cursor())
        } else if self.pos.row > 0 {
            assert(self@.rows.len() == self.rows@.len());
            if self.rows[self.pos.row as usize - 1].wrapped() {
                let (col, _) = self.end_of_row(self.pos.row - 1);
                Some(Pos { row: self.pos.row - 1, col })
            } else {
                None
            }
        } else {
            None
        }
    }

    /// The cell that shows what is before the cursor.
    fn owner_before_cursor(&self) -> (r: Pos)
        requires
            self@.wf(),
            self@.allocated(),
            self@.pos.col > 0,
        ensures
            r.row == self@.pos.row,
            r.col == owner_col(self@.current_row().cells, self@.pos.col - 1),
            r.col < self@.size.cols,
    {
        let col: u16 = self.pos.col - 1;
        let continued = match self.drawing_cell(Pos { row: self.pos.row, col }) {
            Some(cell) => cell.is_wide_continuation(),
            None => false,
        };
        Pos { row: self.pos.row, col: if continued && col > 0 { col - 1 } else { col } }
    }

    /// Whether a character extends the grapheme cluster before the cursor.
    pub fn extends_cluster(&self, c: char) -> (r: bool)
        requires
            self@.wf(),
            self@.allocated(),
        ensures
            r == self@.extends_cluster(c),
    {
        if self.pos.col == 0 {
            return false;
        }
        match self.drawing_cell(self.owner_before_cursor()) {
            Some(cell) => cell.has_contents() && clusters_with(cell.contents(), c) && cell.can_append(c),
            None => false,
        }
    }

    /// Adds a character to the text of a cell, which becomes wide or narrow as
    /// asked, where it can. The cursor stays behind the cell, if that is where
    /// it was.
    pub fn join(&mut self, at: Pos, c: char, wide: bool, attrs: Attrs)
        requires
            old(self)@.wf(),
            old(self)@.allocated(),
            at.row < old(self)@.size.rows,
            at.col < old(self)@.size.cols,
        ensures
            final(self)@ == old(self)@.joined(at, c, wide, attrs@),
            final(self)@.keeps_order(old(self)@),
    {
        let ghost model = self@;
        assert(model.rows.len() == self.rows@.len());
        let i: usize = at.row as usize;
        let was_wide = match self.rows[i].get(at.col) {
            Some(cell) => cell.is_wide(),
            None => false,
        };
        assert(model.rows[i as int] == self.rows@[i as int]@);
        self.rows[i].join(at.col, c, wide, attrs);
        let is_wide = match self.rows[i].get(at.col) {
            Some(cell) => cell.is_wide(),
            None => false,
        };
        let behind: u32 = at.col as u32 + if was_wide { 2 } else { 1 };
        proof {
            lemma_joined_widens_within(model.rows[i as int], at.col as int, c, wide, attrs@);
        }
        if was_wide != is_wide && self.pos.row == at.row && self.pos.col as u32 == behind {
            self.pos.col = at.col + if is_wide { 2 } else { 1 };
        }
        assert(self@.rows =~= model.joined(at, c, wide, attrs@).rows);
    }

    /// Types a character at the cursor: it joins the text before it, or is
    /// drawn across its columns. Only marks join text that was not typed just
    /// before them.
    pub fn type_char(&mut self, c: char, width: u16, attrs: Attrs, joins: bool)
        requires
            old(self)@.wf(),
            old(self)@.allocated(),
        ensures
            final(self)@ == old(self)@.typed(c, width as int, attrs@, joins),
            final(self)@.keeps_order(old(self)@),
    {
        // A wide character cannot be drawn in a grid narrower than itself.
        if width > self.size.cols {
            return;
        }
        if width == 0 {
            if let Some(at) = self.mark_target() {
                let wide = self.joined_width(at, c) > 1;
                self.join(at, c, wide, attrs);
            }
        } else if joins && self.extends_cluster(c) {
            let at = self.owner_before_cursor();
            let wide = self.joined_width(at, c) > 1;
            self.join(at, c, wide, attrs);
        } else {
            self.draw(c, width, attrs);
        }
    }

    /// The columns that the text of a cell takes up with a character added.
    fn joined_width(&self, at: Pos, c: char) -> (r: usize)
        requires
            self@.wf(),
            self@.allocated(),
            at.row < self@.size.rows,
            at.col < self@.size.cols,
        ensures
            r == text_width(self@.joined_text(at, c)),
    {
        assert(self@.rows.len() == self.rows@.len());
        let cells = self.rows[at.row as usize].cells();
        assert(cells_view(cells@) == self@.rows[at.row as int].cells);
        let mut cell = cells[at.col as usize].clone();
        cell.append(c);
        width_of_text(cell.contents())
    }

    fn row_clamp_top(&mut self, limit_to_scroll_region: bool) -> (r: u16)
        ensures
            (final(self)@, r as int) == old(self)@.clamp_top(limit_to_scroll_region),
    {
        if limit_to_scroll_region && self.pos.row < self.scroll_top {
            let rows: u16 = self.scroll_top - self.pos.row;
            self.pos.row = self.scroll_top;
            rows
        } else {
            0
        }
    }

    fn row_clamp_bottom(&mut self, limit_to_scroll_region: bool) -> (r: u16)
        requires
            old(self)@.size.rows > 0,
        ensures
            (final(self)@, r as int) == old(self)@.clamp_bottom(limit_to_scroll_region),
    {
        let bottom: u16 = if limit_to_scroll_region {
            self.scroll_bottom
        } else {
            self.size.rows - 1
        };
        if self.pos.row > bottom {
            let rows: u16 = self.pos.row - bottom;
            self.pos.row = bottom;
            rows
        } else {
            0
        }
    }

    fn row_clamp(&mut self)
        requires
            old(self)@.size.rows > 0,
        ensures
            final(self)@ == old(self)@.clamp_row(),
    {
        if self.pos.row > self.size.rows - 1 {
            self.pos.row = self.size.rows - 1;
        }
    }

    fn col_clamp(&mut self)
        requires
            old(self)@.size.cols > 0,
        ensures
            final(self)@ == old(self)@.clamp_col(),
    {
        if self.pos.col > self.size.cols - 1 {
            self.pos.col = self.size.cols - 1;
        }
    }
}

/// Appends line feeds to a buffer.
fn push_line_feeds(contents: &mut Vec<u8>, n: u16)
    ensures
        final(contents)@ == old(contents)@ + encode_utf8(line_feeds(n as int)),
{
    let mut i: u16 = 0;
    proof {
        assert(line_feeds(0) =~= Seq::<char>::empty());
        assert(contents@ =~= old(contents)@ + encode_utf8(line_feeds(0)));
    }
    while i < n
        invariant
            i <= n,
            contents@ == old(contents)@ + encode_utf8(line_feeds(i as int)),
        decreases n - i,
    {
        term::push_str(contents, "\n");
        proof {
            reveal_strlit("\n");
            assert("\n"@ =~= Seq::<char>::empty().push('\n'));
            lemma_encode_push(Seq::empty(), '\n');
            assert(encode_utf8(Seq::<char>::empty()) =~= Seq::<u8>::empty());
            assert(encode_utf8("\n"@) =~= vstd::utf8::encode_scalar('\n' as u32));
            lemma_encode_push(line_feeds(i as int), '\n');
            assert(line_feeds(i + 1) =~= line_feeds(i as int).push('\n'));
            assert(contents@ =~= old(contents)@ + encode_utf8(line_feeds(i + 1)));
        }
        i = i + 1;
    }
}

} // verus!
