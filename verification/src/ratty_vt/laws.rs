//! What holds of the screen as a whole.

use crate::ratty_vt::attrs::{attrs_changes, law_equal_attrs_write_nothing, AttrsModel, Color};
use crate::ratty_vt::cell::CellModel;
use crate::ratty_vt::grid::Pos;
use crate::ratty_vt::grid_model::{rows_diff, WrittenModel};
use crate::ratty_vt::row::{row_diff, span_end, PenModel, RowModel};
use crate::ratty_vt::screen_model::{
    flag_byte, selects_color, sgr_run, sgr_selector, sgr_simple, sgr_step, with_color, ScreenModel, SgrModel, KITTY_KEYBOARD_STACK_LIMIT,
};
use crate::ratty_vt::term;
use vstd::prelude::*;

verus! {

/// A pen with nothing to erase.
spec fn idle(pen: PenModel) -> bool {
    pen.erase is None
}

spec fn same_place(a: PenModel, b: PenModel) -> bool {
    a.out == b.out && a.pos == b.pos && a.attrs == b.attrs && idle(a)
}

proof fn lemma_same_cells(
    pen: PenModel,
    cells: Seq<CellModel>,
    row: u16,
    start: int,
    end: int,
    wrapping: bool,
)
    requires
        idle(pen),
    ensures
        same_place(pen.steps(cells, cells, row, start, end, wrapping), pen),
    decreases end - start,
{
    if start < end {
        lemma_same_cells(pen, cells, row, start, end - 1, wrapping);
    }
}

proof fn lemma_same_row(
    out: Seq<u8>,
    this: RowModel,
    width: int,
    row: u16,
    wrapping: bool,
    pos: Pos,
    attrs: AttrsModel,
)
    ensures
        ({
            let pen = row_diff(out, this, this, 0, width, row, wrapping, wrapping, pos, attrs);
            pen.out == out && pen.pos == pos && pen.attrs == attrs
        }),
{
    let pen = PenModel { out, pos, attrs, erase: None, last: None, skip: false };
    lemma_same_cells(
        pen,
        this.cells,
        row,
        0,
        span_end(0, width, this.cells.len() as int),
        wrapping,
    );
}

proof fn lemma_same_rows(start: WrittenModel, rows: Seq<RowModel>, n: int, cols: int)
    requires
        start.wrapping == start.prev_wrapping,
    ensures
        ({
            let written = rows_diff(start, rows, rows, n, cols);
            &&& written.out == start.out
            &&& written.pos == start.pos
            &&& written.attrs == start.attrs
            &&& written.wrapping == written.prev_wrapping
        }),
    decreases n,
{
    if n > 0 {
        lemma_same_rows(start, rows, n - 1, cols);
        let before = rows_diff(start, rows, rows, n - 1, cols);
        lemma_same_row(
            before.out,
            rows[n - 1],
            cols,
            (n - 1) as u16,
            before.wrapping,
            before.pos,
            before.attrs,
        );
    }
}

/// A screen that did not change takes no bytes to follow.
pub proof fn law_unchanged_screens_need_no_bytes(screen: ScreenModel, out: Seq<u8>)
    ensures
        screen.diff_bytes(out, screen) == out,
        screen.input_mode_diff_bytes(out, screen) == out,
{
    let grid = screen.active();
    let start = WrittenModel {
        out,
        pos: grid.pos,
        attrs: screen.attrs,
        wrapping: false,
        prev_wrapping: false,
    };
    lemma_same_rows(start, grid.visible(), grid.visible().len() as int, grid.size.cols as int);
    law_equal_attrs_write_nothing(screen.attrs);
    assert(screen.diff_bytes(out, screen) =~= out);
    assert(screen.input_mode_diff_bytes(out, screen) =~= out);
}

/// A cursor that was saved comes back to where it was, with its attributes, whatever
/// was done in between.
pub proof fn law_saved_cursors_come_back(before: ScreenModel, after: ScreenModel)
    requires
        after.active().saved_pos == before.cursor_saved().active().saved_pos,
        after.active().saved_origin_mode == before.cursor_saved().active().saved_origin_mode,
        after.saved_attrs == before.cursor_saved().saved_attrs,
    ensures
        after.cursor_restored().active().pos == before.active().pos,
        after.cursor_restored().active().origin_mode == before.active().origin_mode,
        after.cursor_restored().attrs == before.attrs,
        before.cursor_saved().cursor_restored() == before.cursor_saved(),
{
}

/// Keyboard flags that are pushed are in force, and what was in force before comes back
/// when they are popped, as long as the stack is not full. A full stack forgets its
/// oldest entry.
pub proof fn law_keyboard_flags_are_a_stack(screen: ScreenModel, flags: u16)
    ensures
        screen.keyboard_pushed(flags).keyboard_flags() == flag_byte(flags),
        screen.keyboard_stack().len() < KITTY_KEYBOARD_STACK_LIMIT ==> screen.keyboard_pushed(
            flags,
        ).keyboard_popped(1) == screen,
        screen.keyboard_stack().len() <= KITTY_KEYBOARD_STACK_LIMIT ==> screen.keyboard_pushed(
            flags,
        ).keyboard_stack().len() <= KITTY_KEYBOARD_STACK_LIMIT,
{
    let pushed = screen.keyboard_pushed(flags);
    let stack = screen.keyboard_stack();
    if stack.len() < KITTY_KEYBOARD_STACK_LIMIT {
        assert(pushed.keyboard_stack().take(stack.len() as int) =~= stack);
    }
}

/// The main and the alternate screen have keyboard flags of their own: what is done to
/// those of one leaves those of the other.
pub proof fn law_keyboard_stacks_are_per_screen(screen: ScreenModel, flags: u16, count: u16)
    ensures
        screen.modes.alternate_screen ==> {
            &&& screen.keyboard_pushed(flags).keyboard == screen.keyboard
            &&& screen.keyboard_popped(count).keyboard == screen.keyboard
        },
        !screen.modes.alternate_screen ==> {
            &&& screen.keyboard_pushed(flags).alternate_keyboard == screen.alternate_keyboard
            &&& screen.keyboard_popped(count).alternate_keyboard == screen.alternate_keyboard
        },
{
}

/// Parameters of one part each.
pub open spec fn single_params(params: Seq<u16>) -> Seq<Seq<u16>> {
    Seq::new(params.len(), |i: int| seq![params[i]])
}

/// One of the groups of parameters that set an attribute.
#[verifier::opaque]
spec fn group(changes: term::Attrs, k: int) -> Seq<u16> {
    if k == 0 {
        match changes.fgcolor {
            Some(color) => term::color_params(color, 30),
            None => Seq::empty(),
        }
    } else if k == 1 {
        match changes.bgcolor {
            Some(color) => term::color_params(color, 40),
            None => Seq::empty(),
        }
    } else if k == 2 {
        match changes.underline_color {
            Some(color) => term::underline_color_params(color),
            None => Seq::empty(),
        }
    } else if k == 3 {
        match changes.intensity {
            Some(intensity) => seq![term::intensity_param(intensity)],
            None => Seq::empty(),
        }
    } else if k == 4 {
        term::flag_params(changes.italic, 3)
    } else if k == 5 {
        term::flag_params(changes.underline, 4)
    } else if k == 6 {
        term::flag_params(changes.inverse, 7)
    } else if k == 7 {
        match changes.blink {
            Some(blink) => seq![term::blink_param(blink)],
            None => Seq::empty(),
        }
    } else if k == 8 {
        term::flag_params(changes.hidden, 8)
    } else {
        term::flag_params(changes.strikeout, 9)
    }
}

/// The first groups one after the other.
spec fn groups(changes: term::Attrs, n: int) -> Seq<u16>
    decreases n,
{
    if n <= 0 {
        Seq::empty()
    } else {
        groups(changes, n - 1) + group(changes, n - 1)
    }
}

proof fn lemma_groups(changes: term::Attrs)
    ensures
        groups(changes, 10) == changes.params(),
{
    reveal_with_fuel(groups, 11);
    reveal(group);
    assert(groups(changes, 10) =~= changes.params());
}

proof fn lemma_groups_prefix(changes: term::Attrs, k: int, n: int)
    requires
        0 <= k <= n,
    ensures
        groups(changes, k).len() <= groups(changes, n).len(),
        forall|i: int|
            0 <= i < groups(changes, k).len() ==> #[trigger] groups(changes, n)[i] == groups(
                changes,
                k,
            )[i],
    decreases n - k,
{
    if k < n {
        lemma_groups_prefix(changes, k, n - 1);
    }
}

/// The attributes with the first of them changed.
#[verifier::opaque]
spec fn partly(from: AttrsModel, to: AttrsModel, k: int) -> AttrsModel {
    AttrsModel {
        fgcolor: if k > 0 { to.fgcolor } else { from.fgcolor },
        bgcolor: if k > 1 { to.bgcolor } else { from.bgcolor },
        underline_color: if k > 2 { to.underline_color } else { from.underline_color },
        intensity: if k > 3 { to.intensity } else { from.intensity },
        italic: if k > 4 { to.italic } else { from.italic },
        underline: if k > 5 { to.underline } else { from.underline },
        inverse: if k > 6 { to.inverse } else { from.inverse },
        blink: if k > 7 { to.blink } else { from.blink },
        hidden: if k > 8 { to.hidden } else { from.hidden },
        strikeout: if k > 9 { to.strikeout } else { from.strikeout },
    }
}

/// A parameter that sets an attribute by itself.
proof fn lemma_simple(attrs: AttrsModel, params: Seq<Seq<u16>>, i: int, n: u16, next: AttrsModel)
    requires
        0 <= i < params.len(),
        params[i] == seq![n],
        !selects_color(n),
        sgr_simple(attrs, n) == Some(next),
    ensures
        sgr_run(attrs, params, i) == sgr_run(next, params, i + 1),
{
}

/// Parameters that select a color by its index.
proof fn lemma_indexed(attrs: AttrsModel, params: Seq<Seq<u16>>, i: int, selector: u16, index: u8)
    requires
        0 <= i,
        i + 2 < params.len(),
        selects_color(selector),
        params[i] == seq![selector],
        params[i + 1] == seq![5u16],
        params[i + 2] == seq![index as u16],
    ensures
        sgr_run(attrs, params, i) == sgr_run(
            with_color(attrs, selector, Color::Idx(index)),
            params,
            i + 3,
        ),
{
    assert(seq![2u16] != seq![5u16]) by {
        assert(seq![2u16][0] != seq![5u16][0]);
    }
    assert(sgr_step(attrs, params, i) == sgr_selector(attrs, params, i));
}

/// Parameters that select a color by its components.
proof fn lemma_direct(
    attrs: AttrsModel,
    params: Seq<Seq<u16>>,
    i: int,
    selector: u16,
    r: u8,
    g: u8,
    b: u8,
)
    requires
        0 <= i,
        i + 4 < params.len(),
        selects_color(selector),
        params[i] == seq![selector],
        params[i + 1] == seq![2u16],
        params[i + 2] == seq![r as u16],
        params[i + 3] == seq![g as u16],
        params[i + 4] == seq![b as u16],
    ensures
        sgr_run(attrs, params, i) == sgr_run(
            with_color(attrs, selector, Color::Rgb(r, g, b)),
            params,
            i + 5,
        ),
{
    assert(sgr_step(attrs, params, i) == sgr_selector(attrs, params, i));
}

/// Whether some parameters are at a place among others.
spec fn stand_at(params: Seq<Seq<u16>>, i: int, some: Seq<u16>) -> bool {
    params.subrange(i, i + some.len()) == single_params(some)
}

proof fn lemma_stands(params: Seq<Seq<u16>>, i: int, some: Seq<u16>, j: int)
    requires
        0 <= i,
        i + some.len() <= params.len(),
        stand_at(params, i, some),
        0 <= j < some.len(),
    ensures
        params[i + j] == seq![some[j]],
{
    assert(params.subrange(i, i + some.len())[j] == single_params(some)[j]);
}

/// Parameters that set the foreground or the background color.
proof fn lemma_color(
    attrs: AttrsModel,
    params: Seq<Seq<u16>>,
    i: int,
    color: Color,
    base: int,
)
    requires
        base == 30 || base == 40,
        0 <= i,
        i + term::color_params(color, base).len() <= params.len(),
        stand_at(params, i, term::color_params(color, base)),
    ensures
        sgr_run(attrs, params, i) == sgr_run(
            with_color(attrs, (base + 8) as u16, color),
            params,
            i + term::color_params(color, base).len(),
        ),
{
    let some = term::color_params(color, base);
    let next = with_color(attrs, (base + 8) as u16, color);
    lemma_stands(params, i, some, 0);
    match color {
        Color::Default => {
            lemma_simple(attrs, params, i, some[0], next);
        },
        Color::Idx(index) => {
            if index < 16 {
                lemma_simple(attrs, params, i, some[0], next);
            } else {
                lemma_stands(params, i, some, 1);
                lemma_stands(params, i, some, 2);
                lemma_indexed(attrs, params, i, (base + 8) as u16, index);
            }
        },
        Color::Rgb(r, g, b) => {
            lemma_stands(params, i, some, 1);
            lemma_stands(params, i, some, 2);
            lemma_stands(params, i, some, 3);
            lemma_stands(params, i, some, 4);
            lemma_direct(attrs, params, i, (base + 8) as u16, r, g, b);
        },
    }
}

/// Parameters that set the underline color.
proof fn lemma_underline_color(attrs: AttrsModel, params: Seq<Seq<u16>>, i: int, color: Color)
    requires
        0 <= i,
        i + term::underline_color_params(color).len() <= params.len(),
        stand_at(params, i, term::underline_color_params(color)),
    ensures
        sgr_run(attrs, params, i) == sgr_run(
            with_color(attrs, 58, color),
            params,
            i + term::underline_color_params(color).len(),
        ),
{
    let some = term::underline_color_params(color);
    lemma_stands(params, i, some, 0);
    match color {
        Color::Default => {
            lemma_simple(attrs, params, i, 59, with_color(attrs, 58, color));
        },
        Color::Idx(index) => {
            lemma_stands(params, i, some, 1);
            lemma_stands(params, i, some, 2);
            lemma_indexed(attrs, params, i, 58, index);
        },
        Color::Rgb(r, g, b) => {
            lemma_stands(params, i, some, 1);
            lemma_stands(params, i, some, 2);
            lemma_stands(params, i, some, 3);
            lemma_stands(params, i, some, 4);
            lemma_direct(attrs, params, i, 58, r, g, b);
        },
    }
}

/// What the parameter of an attribute without a color does.
proof fn lemma_flag_group(from: AttrsModel, to: AttrsModel, k: int)
    requires
        3 <= k < 10,
    ensures
        ({
            let set = group(attrs_changes(to, from), k);
            &&& set.len() <= 1
            &&& set.len() == 1 ==> !selects_color(set[0]) && sgr_simple(
                partly(from, to, k),
                set[0],
            ) == Some(partly(from, to, k + 1))
            &&& set.len() == 0 ==> partly(from, to, k) == partly(from, to, k + 1)
        }),
{
    reveal(group);
    reveal(partly);
}

/// What the parameters of a color are.
proof fn lemma_color_groups(from: AttrsModel, to: AttrsModel)
    ensures
        ({
            let changes = attrs_changes(to, from);
            &&& to.fgcolor != from.fgcolor ==> group(changes, 0) == term::color_params(
                to.fgcolor,
                30,
            )
            &&& to.bgcolor != from.bgcolor ==> group(changes, 1) == term::color_params(
                to.bgcolor,
                40,
            )
            &&& to.underline_color != from.underline_color ==> group(changes, 2)
                == term::underline_color_params(to.underline_color)
            &&& to.fgcolor == from.fgcolor ==> group(changes, 0).len() == 0
            &&& to.bgcolor == from.bgcolor ==> group(changes, 1).len() == 0
            &&& to.underline_color == from.underline_color ==> group(changes, 2).len() == 0
        }),
        with_color(partly(from, to, 0), 38, to.fgcolor) == partly(from, to, 1),
        with_color(partly(from, to, 1), 48, to.bgcolor) == partly(from, to, 2),
        with_color(partly(from, to, 2), 58, to.underline_color) == partly(from, to, 3),
        to.fgcolor == from.fgcolor ==> partly(from, to, 0) == partly(from, to, 1),
        to.bgcolor == from.bgcolor ==> partly(from, to, 1) == partly(from, to, 2),
        to.underline_color == from.underline_color ==> partly(from, to, 2) == partly(from, to, 3),
{
    reveal(group);
    reveal(partly);
}

proof fn lemma_group_applied(from: AttrsModel, to: AttrsModel, params: Seq<Seq<u16>>, k: int, i: int)
    requires
        0 <= k < 10,
        0 <= i,
        i + group(attrs_changes(to, from), k).len() <= params.len(),
        stand_at(params, i, group(attrs_changes(to, from), k)),
    ensures
        sgr_run(partly(from, to, k), params, i) == sgr_run(
            partly(from, to, k + 1),
            params,
            i + group(attrs_changes(to, from), k).len(),
        ),
{
    let set = group(attrs_changes(to, from), k);
    let before = partly(from, to, k);
    if k < 3 {
        lemma_color_groups(from, to);
        if k == 0 {
            if to.fgcolor != from.fgcolor {
                lemma_color(before, params, i, to.fgcolor, 30);
            }
        } else if k == 1 {
            if to.bgcolor != from.bgcolor {
                lemma_color(before, params, i, to.bgcolor, 40);
            }
        } else if to.underline_color != from.underline_color {
            lemma_underline_color(before, params, i, to.underline_color);
        }
    } else {
        lemma_flag_group(from, to, k);
        if set.len() == 1 {
            lemma_stands(params, i, set, 0);
            lemma_simple(before, params, i, set[0], partly(from, to, k + 1));
        }
    }
}

proof fn lemma_groups_applied(from: AttrsModel, to: AttrsModel, k: int)
    requires
        0 <= k <= 10,
    ensures
        ({
            let changes = attrs_changes(to, from);
            let params = single_params(groups(changes, 10));
            sgr_run(from, params, 0) == sgr_run(
                partly(from, to, k),
                params,
                groups(changes, k).len() as int,
            )
        }),
    decreases k,
{
    let changes = attrs_changes(to, from);
    let params = single_params(groups(changes, 10));
    if k == 0 {
        reveal(partly);
        assert(partly(from, to, 0) == from);
    } else {
        lemma_groups_applied(from, to, k - 1);
        lemma_groups_prefix(changes, k, 10);
        let i = groups(changes, k - 1).len() as int;
        let set = group(changes, k - 1);
        assert forall|j: int| 0 <= j < set.len() implies #[trigger] params.subrange(
            i,
            i + set.len(),
        )[j] == single_params(set)[j] by {
            assert(groups(changes, k)[i + j] == set[j]);
            assert(groups(changes, 10)[i + j] == groups(changes, k)[i + j]);
        }
        assert(params.subrange(i, i + set.len()) =~= single_params(set));
        lemma_group_applied(from, to, params, k - 1, i);
    }
}

/// Attributes that are written out are the attributes that come in: the parameters that
/// turn some attributes into others do so when they are received, each of them
/// understood.
pub proof fn law_attributes_round_trip(from: AttrsModel, to: AttrsModel)
    ensures
        sgr_run(from, single_params(attrs_changes(to, from).params()), 0) == (to, SgrModel::Stop),
        sgr_run(from, seq![seq![0u16]], 0) == (AttrsModel::plain(), SgrModel::Stop),
{
    let changes = attrs_changes(to, from);
    lemma_groups(changes);
    lemma_groups_applied(from, to, 10);
    assert(partly(from, to, 10) == to) by {
        reveal(partly);
    }
    lemma_simple(from, seq![seq![0u16]], 0, 0, AttrsModel::plain());
}

} // verus!
