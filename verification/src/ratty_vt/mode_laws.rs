//! What modes, attributes and the screens are set to.

use crate::ratty_vt::attrs::{AttrsModel, Blink, Color, Intensity};
use crate::ratty_vt::event::EventModel;
use crate::ratty_vt::grid::Pos;
use crate::ratty_vt::grid_model::GridModel;
use crate::ratty_vt::perform::{modes_run, NoticeModel};
use crate::ratty_vt::screen::{MouseProtocolEncoding, MouseProtocolMode};
use crate::ratty_vt::screen_laws::{
    after_csi, after_escape, attrs_are_default, is_new_row, only_the_grid_changed, shown_grid,
    shows_nothing,
};
use crate::ratty_vt::screen_model::{sgr_run, sgr_step, ModesModel, ScreenModel, SgrModel};
use vstd::prelude::*;

verus! {

/// A screen after a private mode is set (`CSI ? n h`) or reset (`CSI ? n l`).
pub open spec fn after_mode(screen: ScreenModel, n: u16, on: bool) -> ScreenModel {
    screen.performed(
        EventModel::Csi(
            seq![seq![n]],
            seq![63u8],
            if on {
                'h'
            } else {
                'l'
            },
        ),
        0,
    ).screen
}

proof fn lemma_mode(screen: ScreenModel, n: u16, on: bool)
    ensures
        ({
            let changed = if on {
                screen.parted().private_mode_set(seq![n])
            } else {
                screen.parted().private_mode_reset(seq![n])
            };
            after_mode(screen, n, on) == match changed {
                Some(after) => after,
                None => screen.parted(),
            }
        }),
{
    reveal(ScreenModel::performed);
    let params = seq![seq![n]];
    assert(params[0] == seq![n]);
    let changed = if on {
        screen.parted().private_mode_set(seq![n])
    } else {
        screen.parted().private_mode_reset(seq![n])
    };
    if let Some(after) = changed {
        assert(modes_run(after, params, 1, on) == (after, None::<int>));
        assert(modes_run(screen.parted(), params, 0, on) == (after, None::<int>));
    }
}

/// Whether all but the modes is the same.
pub open spec fn only_modes_changed(before: ScreenModel, after: ScreenModel) -> bool {
    after == (ScreenModel {
        modes: after.modes,
        mouse_mode: after.mouse_mode,
        mouse_encoding: after.mouse_encoding,
        joins: after.joins,
        ..before
    })
}

/// Each mode is switched by its number, and no other with it: the keys of the cursor by 1,
/// the cursor by 25, which is hidden where the mode is reset, and bracketed paste by 2004.
pub proof fn law_modes_have_numbers(screen: ScreenModel, on: bool)
    ensures
        ({
            let keys = after_mode(screen, 1, on);
            let cursor = after_mode(screen, 25, on);
            let paste = after_mode(screen, 2004, on);
            &&& only_modes_changed(screen, keys) && keys.modes == (ModesModel {
                application_cursor: on,
                ..screen.modes
            })
            &&& only_modes_changed(screen, cursor) && cursor.modes == (ModesModel {
                hide_cursor: !on,
                ..screen.modes
            })
            &&& only_modes_changed(screen, paste) && paste.modes == (ModesModel {
                bracketed_paste: on,
                ..screen.modes
            })
            &&& keys.mouse_mode == screen.mouse_mode && keys.mouse_encoding == screen.mouse_encoding
            &&& cursor.mouse_mode == screen.mouse_mode && cursor.mouse_encoding
                == screen.mouse_encoding
            &&& paste.mouse_mode == screen.mouse_mode && paste.mouse_encoding
                == screen.mouse_encoding
        }),
{
    lemma_mode(screen, 1, on);
    lemma_mode(screen, 25, on);
    lemma_mode(screen, 2004, on);
    reveal(ScreenModel::private_mode_set);
    reveal(ScreenModel::private_mode_reset);
}

/// The keypad is switched by `ESC =` and `ESC >`.
pub proof fn law_the_keypad_is_switched(screen: ScreenModel)
    ensures
        only_modes_changed(screen, after_escape(screen, 61)),
        only_modes_changed(screen, after_escape(screen, 62)),
        after_escape(screen, 61).modes == (ModesModel { application_keypad: true, ..screen.modes }),
        after_escape(screen, 62).modes == (ModesModel { application_keypad: false, ..screen.modes }),
        after_escape(screen, 61).mouse_mode == screen.mouse_mode,
        after_escape(screen, 62).mouse_mode == screen.mouse_mode,
        after_escape(screen, 61).mouse_encoding == screen.mouse_encoding,
        after_escape(screen, 62).mouse_encoding == screen.mouse_encoding,
{
    reveal(ScreenModel::performed);
}

/// Which mouse events are reported a number says.
pub open spec fn mouse_mode_of(n: u16) -> MouseProtocolMode {
    if n == 9 {
        MouseProtocolMode::Press
    } else if n == 1000 {
        MouseProtocolMode::PressRelease
    } else if n == 1002 {
        MouseProtocolMode::ButtonMotion
    } else {
        MouseProtocolMode::AnyMotion
    }
}

/// A mouse mode is set by its number, in the place of any other, and reset by it where it is
/// the one that is set. So is a mouse encoding: 1005 is that with characters and 1006 that
/// with digits. Nothing else changes.
pub proof fn law_mouse_modes_have_numbers(screen: ScreenModel, n: u16, e: u16)
    requires
        n == 9 || n == 1000 || n == 1002 || n == 1003,
        e == 1005 || e == 1006,
    ensures
        ({
            let encoding = if e == 1005 {
                MouseProtocolEncoding::Utf8
            } else {
                MouseProtocolEncoding::Sgr
            };
            let (set, reset) = (after_mode(screen, n, true), after_mode(screen, n, false));
            let (encoded, plain) = (after_mode(screen, e, true), after_mode(screen, e, false));
            &&& only_modes_changed(screen, set) && set.modes == screen.modes
                && set.mouse_encoding == screen.mouse_encoding
            &&& set.mouse_mode == mouse_mode_of(n)
            &&& only_modes_changed(screen, reset) && reset.modes == screen.modes
                && reset.mouse_encoding == screen.mouse_encoding
            &&& reset.mouse_mode == (if screen.mouse_mode == mouse_mode_of(n) {
                MouseProtocolMode::Off
            } else {
                screen.mouse_mode
            })
            &&& only_modes_changed(screen, encoded) && encoded.modes == screen.modes
                && encoded.mouse_mode == screen.mouse_mode
            &&& encoded.mouse_encoding == encoding
            &&& only_modes_changed(screen, plain) && plain.modes == screen.modes && plain.mouse_mode
                == screen.mouse_mode
            &&& plain.mouse_encoding == (if screen.mouse_encoding == encoding {
                MouseProtocolEncoding::Default
            } else {
                screen.mouse_encoding
            })
        }),
{
    lemma_mode(screen, n, true);
    lemma_mode(screen, n, false);
    lemma_mode(screen, e, true);
    lemma_mode(screen, e, false);
    reveal(ScreenModel::private_mode_set);
    reveal(ScreenModel::private_mode_reset);
}

/// Origin mode (6) has positions count from the scroll region; switching it puts the cursor
/// at the first of them.
pub proof fn law_origin_mode_is_switched(screen: ScreenModel, on: bool)
    requires
        screen.wf(),
    ensures
        ({
            let after = after_mode(screen, 6, on);
            let grid = shown_grid(screen);
            &&& only_the_grid_changed(screen, after)
            &&& shown_grid(after) == (GridModel {
                origin_mode: on,
                pos: Pos {
                    row: if on {
                        grid.scroll_top
                    } else {
                        0
                    },
                    col: 0,
                },
                ..grid
            })
        }),
{
    lemma_mode(screen, 6, on);
    reveal(ScreenModel::private_mode_set);
    reveal(ScreenModel::private_mode_reset);
}

/// Switching to the alternate screen and back with 47 leaves the text of both screens; only
/// the view of the main screen is no longer scrolled back.
pub proof fn law_the_alternate_screen_is_switched(screen: ScreenModel)
    requires
        screen.wf(),
        !screen.modes.alternate_screen,
    ensures
        ({
            let there = after_mode(screen, 47, true);
            let back = after_mode(there, 47, false);
            &&& there.modes == (ModesModel { alternate_screen: true, ..screen.modes })
            &&& there.grid == (GridModel { scrollback_offset: 0, ..screen.grid })
            &&& there.alternate_grid.rows.len() == screen.size().rows
            &&& screen.alternate_grid.rows.len() > 0 ==> there.alternate_grid == screen.alternate_grid
            &&& screen.alternate_grid.rows.len() == 0 ==> forall|i: int|
                0 <= i < there.alternate_grid.rows.len() ==> is_new_row(
                    #[trigger] there.alternate_grid.rows[i],
                    screen.alternate_grid.size.cols as int,
                )
            &&& there.attrs == screen.attrs
            &&& back.modes == screen.modes
            &&& back.grid == there.grid
            &&& back.alternate_grid == there.alternate_grid
            &&& back.attrs == screen.attrs
        }),
{
    let there = after_mode(screen, 47, true);
    lemma_mode(screen, 47, true);
    lemma_mode(there, 47, false);
    reveal(ScreenModel::private_mode_set);
    reveal(ScreenModel::private_mode_reset);
}

/// An application that opens the alternate screen with 1049 finds it empty, with the cursor
/// at its start, and when it leaves it, whatever it did there, the main screen has the text,
/// the scrollback, the cursor and the attributes that it had before.
pub proof fn law_the_main_screen_comes_back(screen: ScreenModel, there: ScreenModel, end: ScreenModel)
    requires
        screen.wf(),
        !screen.modes.alternate_screen,
        there == after_mode(screen, 1049, true),
        end.grid == there.grid,
        end.saved_attrs == there.saved_attrs,
        end.modes.alternate_screen,
    ensures
        there.modes == (ModesModel { alternate_screen: true, ..screen.modes }),
        there.alternate_grid.pos == (Pos { row: 0, col: 0 }),
        there.alternate_grid.rows.len() == screen.size().rows,
        there.alternate_grid.scroll_top == 0,
        there.alternate_grid.scroll_bottom == screen.size().rows - 1,
        !there.alternate_grid.origin_mode,
        forall|i: int, j: int|
            0 <= i < there.alternate_grid.rows.len() && 0 <= j < screen.size().cols ==> shows_nothing(
                #[trigger] there.alternate_grid.rows[i].cells[j],
            ) && attrs_are_default(there.alternate_grid.rows[i].cells[j].attrs),
        there.attrs == screen.attrs,
        ({
            let back = after_mode(end, 1049, false);
            &&& !back.modes.alternate_screen
            &&& back.grid.rows == screen.grid.rows
            &&& back.grid.scrollback == screen.grid.scrollback
            &&& back.grid.pos == screen.grid.pos
            &&& back.grid.origin_mode == screen.grid.origin_mode
            &&& back.grid.scroll_top == screen.grid.scroll_top
            &&& back.grid.scroll_bottom == screen.grid.scroll_bottom
            &&& back.grid.scrollback_offset == 0
            &&& back.attrs == screen.attrs
            &&& back.alternate_grid == end.alternate_grid
        }),
{
    lemma_mode(screen, 1049, true);
    lemma_mode(end, 1049, false);
    reveal(ScreenModel::private_mode_set);
    reveal(ScreenModel::private_mode_reset);
}

/// Whatever is done on one screen, other than to switch screens or to reset the terminal,
/// leaves the grid of the other one alone, and leaves it the other one.
pub proof fn law_screens_leave_each_other_alone(screen: ScreenModel, event: EventModel, from: int)
    requires
        match event {
            EventModel::Esc(intermediates, b) => intermediates.len() > 0 || b != 99,
            EventModel::Csi(_, intermediates, c) => !(intermediates.len() > 0 && intermediates[0] == 63
                && (c == 'h' || c == 'l')),
            _ => true,
        },
    ensures
        ({
            let after = screen.performed(event, from).screen;
            &&& after.modes.alternate_screen == screen.modes.alternate_screen
            &&& screen.modes.alternate_screen ==> after.grid == screen.grid
            &&& !screen.modes.alternate_screen ==> after.alternate_grid == screen.alternate_grid
        }),
{
    let parted = screen.parted();
    assert(screen.performed(event, from).screen == (match event {
        EventModel::Print(c) => screen.printed(c).screen,
        EventModel::Execute(b) => parted.executed(b).screen,
        EventModel::Esc(intermediates, b) => parted.escaped(intermediates, b).screen,
        EventModel::Csi(params, intermediates, c) => (if ScreenModel::goes_on(event) {
            screen
        } else {
            parted
        }).controlled(params, intermediates, c, from).screen,
        EventModel::Osc(params) => parted.commanded(params, from).screen,
    })) by {
        reveal(ScreenModel::performed);
    }
    if let EventModel::Csi(params, intermediates, c) = event {
        lemma_csi_leaves_other(parted, params, c);
        lemma_keys_leave_other(parted, params, intermediates, c);
        lemma_erasing_leaves_other(parted, crate::ratty_vt::perform::param_or(params, 0, 0));
    }
}

/// Whether the grid that is not shown is the same.
spec fn leaves_other(before: ScreenModel, after: ScreenModel) -> bool {
    &&& after.modes.alternate_screen == before.modes.alternate_screen
    &&& before.modes.alternate_screen ==> after.grid == before.grid
    &&& !before.modes.alternate_screen ==> after.alternate_grid == before.alternate_grid
}

proof fn lemma_erasing_leaves_other(screen: ScreenModel, mode: u16)
    ensures
        screen.display_erased(mode) matches Some(after) ==> leaves_other(screen, after),
        screen.line_erased(mode) matches Some(after) ==> leaves_other(screen, after),
{
    reveal(ScreenModel::display_erased);
    reveal(ScreenModel::line_erased);
}

#[verifier::spinoff_prover]
#[verifier::rlimit(40)]
proof fn lemma_csi_leaves_other(screen: ScreenModel, params: Seq<Seq<u16>>, c: char)
    ensures
        screen.csi_plain(params, c) matches Some(after) ==> leaves_other(screen, after),
{
    lemma_erasing_leaves_other(screen, crate::ratty_vt::perform::param_or(params, 0, 0));
    reveal(ScreenModel::csi_plain);
}

proof fn lemma_keys_leave_other(
    screen: ScreenModel,
    params: Seq<Seq<u16>>,
    intermediates: Seq<u8>,
    c: char,
)
    ensures
        intermediates.len() > 0 ==> (screen.csi_keyboard(params, intermediates[0], c) matches Some(
            after,
        ) ==> leaves_other(screen, after)),
{
    reveal(ScreenModel::csi_keyboard);
}

/// A reset (`ESC c`) leaves a screen of the same size as it is switched on: empty, with no
/// scrollback, the cursor at its start, and nothing set.
pub proof fn law_resets_leave_nothing(screen: ScreenModel)
    requires
        screen.wf(),
    ensures
        ({
            let after = after_escape(screen, 99);
            let grid = after.grid;
            let off = after.modes;
            &&& grid.size == screen.grid.size
            &&& grid.rows.len() == grid.size.rows
            &&& forall|i: int|
                0 <= i < grid.rows.len() ==> is_new_row(#[trigger] grid.rows[i], grid.size.cols as int)
            &&& grid.scrollback.len() == 0
            &&& grid.scrollback_len == screen.grid.scrollback_len
            &&& grid.scrollback_offset == 0
            &&& grid.pos == (Pos { row: 0, col: 0 })
            &&& grid.saved_pos == (Pos { row: 0, col: 0 })
            &&& grid.scroll_top == 0 && grid.scroll_bottom == grid.size.rows - 1
            &&& !grid.origin_mode
            &&& attrs_are_default(after.attrs)
            &&& !off.application_keypad && !off.application_cursor && !off.hide_cursor
                && !off.alternate_screen && !off.bracketed_paste
            &&& after.mouse_mode == MouseProtocolMode::Off
            &&& after.mouse_encoding == MouseProtocolEncoding::Default
            &&& after.keyboard.len() == 0 && after.alternate_keyboard.len() == 0
            &&& after.modify_other_keys is None
        }),
{
    reveal(ScreenModel::performed);
}

/// Modes that are switched in one sequence are switched one after the other.
pub proof fn law_modes_are_switched_in_order(screen: ScreenModel, a: u16, b: u16, on: bool)
    requires
        (if on {
            screen.parted().private_mode_set(seq![a])
        } else {
            screen.parted().private_mode_reset(seq![a])
        }) is Some,
    ensures
        screen.performed(
            EventModel::Csi(
                seq![seq![a], seq![b]],
                seq![63u8],
                if on {
                    'h'
                } else {
                    'l'
                },
            ),
            0,
        ).screen.parted() == after_mode(after_mode(screen, a, on), b, on).parted(),
{
    let params = seq![seq![a], seq![b]];
    let first = after_mode(screen, a, on);
    lemma_mode(screen, a, on);
    lemma_mode(first, b, on);
    reveal(ScreenModel::performed);
    assert(params[0] == seq![a] && params[1] == seq![b]);
    lemma_modes_leave_parted(screen.parted(), seq![a], on);
    assert(first.parted() == first);
    let changed = if on {
        first.private_mode_set(seq![b])
    } else {
        first.private_mode_reset(seq![b])
    };
    if let Some(after) = changed {
        assert(modes_run(after, params, 2, on) == (after, None::<int>));
        assert(modes_run(first, params, 1, on) == (after, None::<int>));
    } else {
        assert(modes_run(first, params, 1, on) == (first, Some(2int)));
    }
    assert(modes_run(screen.parted(), params, 0, on) == modes_run(first, params, 1, on));
}

proof fn lemma_modes_leave_parted(screen: ScreenModel, param: Seq<u16>, on: bool)
    requires
        !screen.joins,
    ensures
        screen.private_mode_set(param) matches Some(after) ==> !after.joins,
        screen.private_mode_reset(param) matches Some(after) ==> !after.joins,
{
    reveal(ScreenModel::private_mode_set);
    reveal(ScreenModel::private_mode_reset);
}

// Attributes.

/// Whether all but the attributes of new text is the same.
pub open spec fn only_attrs_changed(before: ScreenModel, after: ScreenModel) -> bool {
    after == (ScreenModel { attrs: after.attrs, ..before })
}

/// What one number of `CSI n m` makes of attributes.
pub open spec fn attrs_with(attrs: AttrsModel, n: u16, after: AttrsModel) -> bool {
    &&& n == 0 ==> attrs_are_default(after)
    &&& n == 1 ==> after == (AttrsModel { intensity: Intensity::Bold, ..attrs })
    &&& n == 2 ==> after == (AttrsModel { intensity: Intensity::Dim, ..attrs })
    &&& n == 3 ==> after == (AttrsModel { italic: true, ..attrs })
    &&& n == 4 ==> after == (AttrsModel { underline: true, ..attrs })
    &&& n == 5 ==> after == (AttrsModel { blink: Blink::Slow, ..attrs })
    &&& n == 6 ==> after == (AttrsModel { blink: Blink::Rapid, ..attrs })
    &&& n == 7 ==> after == (AttrsModel { inverse: true, ..attrs })
    &&& n == 8 ==> after == (AttrsModel { hidden: true, ..attrs })
    &&& n == 9 ==> after == (AttrsModel { strikeout: true, ..attrs })
    &&& n == 22 ==> after == (AttrsModel { intensity: Intensity::Normal, ..attrs })
    &&& n == 23 ==> after == (AttrsModel { italic: false, ..attrs })
    &&& n == 24 ==> after == (AttrsModel { underline: false, ..attrs })
    &&& n == 25 ==> after == (AttrsModel { blink: Blink::Steady, ..attrs })
    &&& n == 27 ==> after == (AttrsModel { inverse: false, ..attrs })
    &&& n == 28 ==> after == (AttrsModel { hidden: false, ..attrs })
    &&& n == 29 ==> after == (AttrsModel { strikeout: false, ..attrs })
    &&& 30 <= n <= 37 ==> after == (AttrsModel { fgcolor: Color::Idx((n - 30) as u8), ..attrs })
    &&& n == 39 ==> after == (AttrsModel { fgcolor: Color::Default, ..attrs })
    &&& 40 <= n <= 47 ==> after == (AttrsModel { bgcolor: Color::Idx((n - 40) as u8), ..attrs })
    &&& n == 49 ==> after == (AttrsModel { bgcolor: Color::Default, ..attrs })
    &&& n == 59 ==> after == (AttrsModel { underline_color: Color::Default, ..attrs })
    &&& 90 <= n <= 97 ==> after == (AttrsModel {
        fgcolor: Color::Idx((n - 90 + 8) as u8),
        ..attrs
    })
    &&& 100 <= n <= 107 ==> after == (AttrsModel {
        bgcolor: Color::Idx((n - 100 + 8) as u8),
        ..attrs
    })
}

/// Each attribute is set and reset by its number, and no other with it. Without a number all
/// of them are reset.
pub proof fn law_attributes_have_numbers(screen: ScreenModel, n: u16)
    ensures
        ({
            let after = after_csi(screen, seq![seq![n]], 'm');
            let reset = after_csi(screen, Seq::empty(), 'm');
            &&& only_attrs_changed(screen, after)
            &&& attrs_with(screen.attrs, n, after.attrs)
            &&& only_attrs_changed(screen, reset)
            &&& attrs_are_default(reset.attrs)
        }),
{
    reveal(ScreenModel::performed);
    let params = seq![seq![n]];
    assert(params[0] == seq![n]);
    let (attrs, outcome) = sgr_step(screen.attrs, params, 0);
    if outcome == SgrModel::Next(1) {
        assert(sgr_run(attrs, params, 1) == (attrs, SgrModel::Stop));
    }
}

/// Whether one of the colors was set, by the number of its selector: 38 is the foreground,
/// 48 the background, and 58 the underline.
pub open spec fn color_is_set(
    before: AttrsModel,
    after: AttrsModel,
    selector: u16,
    color: Color,
) -> bool {
    &&& selector == 38 ==> after == (AttrsModel { fgcolor: color, ..before })
    &&& selector == 48 ==> after == (AttrsModel { bgcolor: color, ..before })
    &&& selector == 58 ==> after == (AttrsModel { underline_color: color, ..before })
}

/// A color is selected by its index behind a 5, or by its red, green and blue, in this
/// order, behind a 2, as parameters or as parts of one.
pub proof fn law_colors_are_selected(screen: ScreenModel, selector: u16, r: u8, g: u8, b: u8)
    requires
        selector == 38 || selector == 48 || selector == 58,
    ensures
        ({
            let (x, y, z) = (r as u16, g as u16, b as u16);
            let listed = after_csi(
                screen,
                seq![seq![selector], seq![2u16], seq![x], seq![y], seq![z]],
                'm',
            );
            let joined = after_csi(screen, seq![seq![selector, 2u16, x, y, z]], 'm');
            let indexed = after_csi(screen, seq![seq![selector], seq![5u16], seq![x]], 'm');
            let joined_index = after_csi(screen, seq![seq![selector, 5u16, x]], 'm');
            &&& only_attrs_changed(screen, listed)
            &&& color_is_set(screen.attrs, listed.attrs, selector, Color::Rgb(r, g, b))
            &&& joined == listed
            &&& only_attrs_changed(screen, indexed)
            &&& color_is_set(screen.attrs, indexed.attrs, selector, Color::Idx(r))
            &&& joined_index == indexed
        }),
{
    let (x, y, z) = (r as u16, g as u16, b as u16);
    let listed = seq![seq![selector], seq![2u16], seq![x], seq![y], seq![z]];
    let joined = seq![seq![selector, 2u16, x, y, z]];
    let indexed = seq![seq![selector], seq![5u16], seq![x]];
    let joined_index = seq![seq![selector, 5u16, x]];
    lemma_runs_to_the_end(screen, listed, 5);
    lemma_runs_to_the_end(screen, joined, 1);
    lemma_runs_to_the_end(screen, indexed, 3);
    lemma_runs_to_the_end(screen, joined_index, 1);
    assert(listed[0] == seq![selector] && listed[1] == seq![2u16] && listed[2] == seq![x]
        && listed[3] == seq![y] && listed[4] == seq![z]);
    assert(indexed[0] == seq![selector] && indexed[1] == seq![5u16] && indexed[2] == seq![x]);
    assert(indexed[1][0] != 2u16);
    assert(joined[0] == seq![selector, 2u16, x, y, z]);
    assert(joined_index[0] == seq![selector, 5u16, x]);
}

/// Attributes that one step sets, where that is the last.
proof fn lemma_runs_to_the_end(screen: ScreenModel, params: Seq<Seq<u16>>, end: int)
    requires
        params.len() == end,
        end > 0,
    ensures
        sgr_step(screen.attrs, params, 0).1 == SgrModel::Next(end) ==> after_csi(
            screen,
            params,
            'm',
        ) == (ScreenModel { attrs: sgr_step(screen.attrs, params, 0).0, ..screen }),
{
    reveal(ScreenModel::performed);
    let (attrs, outcome) = sgr_step(screen.attrs, params, 0);
    if outcome == SgrModel::Next(end) {
        assert(sgr_run(attrs, params, end) == (attrs, SgrModel::Stop));
        assert(sgr_run(screen.attrs, params, 0) == (attrs, SgrModel::Stop));
    }
}

/// Attributes that are set in one sequence are set one after the other.
pub proof fn law_attributes_add_up(screen: ScreenModel, n: u16, rest: Seq<Seq<u16>>)
    requires
        rest.len() > 0,
        n != 38 && n != 48 && n != 58,
        crate::ratty_vt::screen_model::sgr_simple(screen.attrs, n) is Some,
    ensures
        after_csi(screen, seq![seq![n]] + rest, 'm').attrs == after_csi(
            after_csi(screen, seq![seq![n]], 'm'),
            rest,
            'm',
        ).attrs,
{
    let all = seq![seq![n]] + rest;
    let one = seq![seq![n]];
    let (attrs, outcome) = sgr_step(screen.attrs, all, 0);
    assert(all[0] == seq![n] && one[0] == seq![n]);
    lemma_runs_to_the_end(screen, one, 1);
    assert(sgr_run(screen.attrs, all, 0) == sgr_run(attrs, all, 1));
    lemma_shifted(attrs, seq![n], rest, 0);
    assert(after_csi(screen, all, 'm').attrs == sgr_run(screen.attrs, all, 0).0) by {
        reveal(ScreenModel::performed);
    }
    let middle = after_csi(screen, one, 'm');
    assert(after_csi(middle, rest, 'm').attrs == sgr_run(middle.attrs, rest, 0).0) by {
        reveal(ScreenModel::performed);
    }
}

/// A step means the same behind another parameter.
#[verifier::spinoff_prover]
proof fn lemma_step_shifted(attrs: AttrsModel, first: Seq<u16>, rest: Seq<Seq<u16>>, i: int)
    requires
        0 <= i < rest.len(),
    ensures
        ({
            let all = seq![first] + rest;
            let (next, outcome) = sgr_step(attrs, rest, i);
            let (other, shifted) = sgr_step(attrs, all, i + 1);
            &&& next == other
            &&& outcome matches SgrModel::Next(k) ==> shifted == SgrModel::Next(k + 1)
            &&& shifted is Next ==> outcome is Next
        }),
{
    let all = seq![first] + rest;
    assert(all[i + 1] == rest[i]);
    assert(i + 1 < rest.len() ==> all[i + 1 + 1] == rest[i + 1]);
    assert(i + 2 < rest.len() ==> all[i + 2 + 1] == rest[i + 2]);
    assert(i + 3 < rest.len() ==> all[i + 3 + 1] == rest[i + 3]);
    assert(i + 4 < rest.len() ==> all[i + 4 + 1] == rest[i + 4]);
}

/// Parameters mean the same behind another one.
#[verifier::spinoff_prover]
proof fn lemma_shifted(attrs: AttrsModel, first: Seq<u16>, rest: Seq<Seq<u16>>, i: int)
    requires
        0 <= i,
    ensures
        sgr_run(attrs, seq![first] + rest, i + 1).0 == sgr_run(attrs, rest, i).0,
    decreases rest.len() - i,
{
    let all = seq![first] + rest;
    if i < rest.len() {
        lemma_step_shifted(attrs, first, rest, i);
        let (next, outcome) = sgr_step(attrs, rest, i);
        let (_, shifted) = sgr_step(attrs, all, i + 1);
        lemma_run_unfolds(attrs, rest, i);
        lemma_run_unfolds(attrs, all, i + 1);
        if let SgrModel::Next(k) = outcome {
            if k > i {
                lemma_shifted(next, first, rest, k);
            }
        }
    } else {
        lemma_run_unfolds(attrs, rest, i);
        lemma_run_unfolds(attrs, all, i + 1);
    }
}

proof fn lemma_run_unfolds(attrs: AttrsModel, params: Seq<Seq<u16>>, i: int)
    requires
        0 <= i,
    ensures
        i >= params.len() ==> sgr_run(attrs, params, i).0 == attrs,
        i < params.len() ==> sgr_run(attrs, params, i).0 == (match sgr_step(attrs, params, i) {
            (next, SgrModel::Next(k)) => if k > i {
                sgr_run(next, params, k).0
            } else {
                next
            },
            (next, _) => next,
        }),
{
}

// The keyboard.

/// A screen after a sequence of the keyboard protocols.
pub open spec fn after_keys(
    screen: ScreenModel,
    params: Seq<Seq<u16>>,
    marker: u8,
    c: char,
) -> ScreenModel {
    screen.performed(EventModel::Csi(params, seq![marker], c), 0).screen
}

/// The keyboard flags of the screen that is shown.
pub open spec fn shown_flags(screen: ScreenModel) -> Seq<u8> {
    if screen.modes.alternate_screen {
        screen.alternate_keyboard
    } else {
        screen.keyboard
    }
}

pub open spec fn only_flags_changed(before: ScreenModel, after: ScreenModel) -> bool {
    &&& before.modes.alternate_screen ==> after == (ScreenModel {
        alternate_keyboard: after.alternate_keyboard,
        joins: after.joins,
        ..before
    })
    &&& !before.modes.alternate_screen ==> after == (ScreenModel {
        keyboard: after.keyboard,
        joins: after.joins,
        ..before
    })
}

/// Keyboard flags are pushed (`CSI > n u`), popped (`CSI < n u`) and changed in place
/// (`CSI = n ; how u`): replaced, added or taken away. What is pushed comes off first, and
/// only the flags of the screen that is shown change.
pub proof fn law_keyboard_flags_are_stacked(screen: ScreenModel, n: u16, count: u16)
    requires
        screen.wf(),
        n <= 255,
    ensures
        ({
            let before = shown_flags(screen);
            let off = if count == 0 { 1 } else { count as int };
            let pushed = after_keys(screen, seq![seq![n]], 62, 'u');
            let popped = after_keys(screen, seq![seq![count]], 60, 'u');
            let replaced = after_keys(screen, seq![seq![n], seq![1u16]], 61, 'u');
            let added = after_keys(screen, seq![seq![n], seq![2u16]], 61, 'u');
            let taken = after_keys(screen, seq![seq![n], seq![3u16]], 61, 'u');
            let current = if before.len() == 0 { 0u8 } else { before.last() };
            &&& only_flags_changed(screen, pushed)
            &&& shown_flags(pushed).len() > 0 && shown_flags(pushed).last() == n
            &&& before.len() < 32 ==> shown_flags(pushed).drop_last() == before
            &&& before.len() == 32 ==> shown_flags(pushed).drop_last() == before.drop_first()
            &&& only_flags_changed(screen, popped)
            &&& shown_flags(popped) == before.take(
                if before.len() < off {
                    0
                } else {
                    before.len() - off
                },
            )
            &&& only_flags_changed(screen, replaced) && only_flags_changed(screen, added)
                && only_flags_changed(screen, taken)
            &&& shown_flags(replaced).last() == n
            &&& shown_flags(added).last() == current | (n as u8)
            &&& shown_flags(taken).last() == current & !(n as u8)
            &&& before.len() > 0 ==> shown_flags(replaced).drop_last() == before.drop_last()
                && shown_flags(added).drop_last() == before.drop_last() && shown_flags(
                taken,
            ).drop_last() == before.drop_last()
        }),
{
    let before = shown_flags(screen);
    let push = seq![seq![n]];
    let pop = seq![seq![count]];
    let replace = seq![seq![n], seq![1u16]];
    let add_to = seq![seq![n], seq![2u16]];
    let take = seq![seq![n], seq![3u16]];
    assert(push[0] == seq![n] && pop[0] == seq![count]);
    assert(replace[0] == seq![n] && replace[1] == seq![1u16]);
    assert(add_to[0] == seq![n] && add_to[1] == seq![2u16]);
    assert(take[0] == seq![n] && take[1] == seq![3u16]);
    lemma_keys(screen, push, 62);
    lemma_keys(screen, pop, 60);
    lemma_keys(screen, replace, 61);
    lemma_keys(screen, add_to, 61);
    lemma_keys(screen, take, 61);
    let pushed = shown_flags(after_keys(screen, push, 62, 'u'));
    if before.len() < 32 {
        assert(pushed.drop_last() =~= before);
    } else {
        assert(pushed.drop_last() =~= before.drop_first());
    }
    if before.len() > 0 {
        assert(shown_flags(after_keys(screen, replace, 61, 'u')).drop_last()
            =~= before.drop_last());
        assert(shown_flags(after_keys(screen, add_to, 61, 'u')).drop_last()
            =~= before.drop_last());
        assert(shown_flags(after_keys(screen, take, 61, 'u')).drop_last() =~= before.drop_last());
    }
}

proof fn lemma_keys(screen: ScreenModel, params: Seq<Seq<u16>>, marker: u8)
    requires
        marker == 60 || marker == 61 || marker == 62,
    ensures
        screen.parted().csi_keyboard(params, marker, 'u') == Some(
            after_keys(screen, params, marker, 'u'),
        ),
        ({
            let n = crate::ratty_vt::perform::param_or(params, 0, 0);
            after_keys(screen, params, marker, 'u') == if marker == 62 {
                screen.parted().keyboard_pushed(n)
            } else if marker == 60 {
                screen.parted().keyboard_popped(
                    crate::ratty_vt::perform::param_or(params, 0, 1),
                )
            } else {
                screen.parted().keyboard_set(n, crate::ratty_vt::perform::param_or(params, 1, 1))
            }
        }),
{
    reveal(ScreenModel::performed);
    reveal(ScreenModel::csi_keyboard);
}

// Notices.

/// A bell is told of as one that is heard, `ESC g` as one that is seen, and a request for a
/// size with the rows before the columns.
pub proof fn law_bells_and_sizes_are_told(screen: ScreenModel, rows: u16, cols: u16)
    ensures
        screen.performed(EventModel::Execute(7), 0).notice == Some(NoticeModel::AudibleBell),
        screen.performed(EventModel::Esc(Seq::empty(), 103), 0).notice == Some(
            NoticeModel::VisualBell,
        ),
        screen.performed(
            EventModel::Csi(seq![seq![8u16], seq![rows], seq![cols]], Seq::empty(), 't'),
            0,
        ).notice == Some(NoticeModel::Resize(rows, cols)),
{
    reveal(ScreenModel::performed);
    let params = seq![seq![8u16], seq![rows], seq![cols]];
    assert(params[0] == seq![8u16] && params[1] == seq![rows] && params[2] == seq![cols]);
}

/// A title is told of as a title (`OSC 2`), a name of the icon as one (`OSC 1`), and what is
/// both as one after the other (`OSC 0`). Nothing on the screen changes.
pub proof fn law_titles_are_told(screen: ScreenModel, text: Seq<u8>)
    ensures
        ({
            let both = EventModel::Osc(seq![seq![48u8], text]);
            let icon = EventModel::Osc(seq![seq![49u8], text]);
            let title = EventModel::Osc(seq![seq![50u8], text]);
            &&& screen.performed(title, 0).notice == Some(NoticeModel::Title(text))
            &&& screen.performed(title, 0).next is None
            &&& screen.performed(icon, 0).notice == Some(NoticeModel::IconName(text))
            &&& screen.performed(icon, 0).next is None
            &&& screen.performed(both, 0).notice == Some(NoticeModel::IconName(text))
            &&& screen.performed(both, 0).next == Some(1int)
            &&& screen.performed(both, 1).notice == Some(NoticeModel::Title(text))
            &&& screen.performed(both, 1).next is None
            &&& screen.performed(title, 0).screen == screen.parted()
            &&& screen.performed(icon, 0).screen == screen.parted()
            &&& screen.performed(both, 0).screen == screen.parted()
        }),
{
    reveal(ScreenModel::performed);
    let both = seq![seq![48u8], text];
    let icon = seq![seq![49u8], text];
    let title = seq![seq![50u8], text];
    assert(both[0] == seq![48u8] && both[1] == text);
    assert(icon[0] == seq![49u8] && icon[1] == text);
    assert(title[0] == seq![50u8] && title[1] == text);
    assert(icon[0][0] != 48u8 && title[0][0] != 48u8 && title[0][0] != 49u8);
}

/// What is to be copied (`OSC 52`) is told of with the clipboards that it is for, and so is
/// a request for what they hold.
pub proof fn law_clipboards_are_told(screen: ScreenModel, data: Seq<u8>)
    requires
        forall|i: int|
            0 <= i < data.len() ==> 65 <= #[trigger] data[i] <= 90 || 97 <= data[i] <= 122 || 48
                <= data[i] <= 57,
    ensures
        screen.performed(EventModel::Osc(seq![seq![53u8, 50u8], seq![99u8], data]), 0).notice == Some(
            NoticeModel::Copy(seq![99u8], data),
        ),
        screen.performed(
            EventModel::Osc(seq![seq![53u8, 50u8], seq![99u8], seq![63u8]]),
            0,
        ).notice == Some(NoticeModel::Paste(seq![99u8])),
{
    reveal(ScreenModel::performed);
    let copy = seq![seq![53u8, 50u8], seq![99u8], data];
    let paste = seq![seq![53u8, 50u8], seq![99u8], seq![63u8]];
    assert(copy[0] == seq![53u8, 50u8] && copy[1] == seq![99u8] && copy[2] == data);
    assert(paste[0] == seq![53u8, 50u8] && paste[1] == seq![99u8] && paste[2] == seq![63u8]);
    if data == seq![63u8] {
        assert(data[0] == 63u8);
    }
}

} // verus!
