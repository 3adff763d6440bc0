//! Input modes that are written out come back.

use crate::ratty_vt::codes::{
    code_bytes, code_event, codes_bytes, codes_events, encoding_number, lemma_mode_performed,
    mouse_number, CodeModel,
};
use crate::ratty_vt::event::EventModel;
use crate::ratty_vt::parser::events_run;
use crate::ratty_vt::perform::quiet;
use crate::ratty_vt::screen::{MouseProtocolEncoding, MouseProtocolMode};
use crate::ratty_vt::screen_model::{
    changed, ModesModel, ScreenModel, MODE_APPLICATION_CURSOR, MODE_APPLICATION_KEYPAD,
    MODE_BRACKETED_PASTE,
};
use crate::ratty_vt::term;
use vstd::prelude::*;

verus! {

/// Whether some bytes are codes that turn one screen into another.
spec fn leads(out: Seq<u8>, from: ScreenModel, to: ScreenModel) -> bool {
    exists|codes: Seq<CodeModel>| led_by(codes, out, from, to)
}

spec fn led_by(codes: Seq<CodeModel>, out: Seq<u8>, from: ScreenModel, to: ScreenModel) -> bool {
    &&& codes_bytes(codes) == out
    &&& events_run(from, codes_events(codes)).0 == to
}

proof fn lemma_nothing(from: ScreenModel)
    ensures
        leads(Seq::empty(), from, from),
{
    let codes = Seq::<CodeModel>::empty();
    assert(codes_events(codes) =~= Seq::<EventModel>::empty());
    assert(led_by(codes, Seq::empty(), from, from));
}

proof fn lemma_code(out: Seq<u8>, from: ScreenModel, to: ScreenModel, code: CodeModel, after: ScreenModel)
    requires
        leads(out, from, to),
        to.performed(code_event(code), 0) == quiet(after),
    ensures
        leads(out + code_bytes(code), from, after),
{
    let codes = choose|codes: Seq<CodeModel>| led_by(codes, out, from, to);
    let more = codes.push(code);
    assert(more.drop_last() =~= codes);
    let events = codes_events(more);
    assert(events.drop_last() =~= codes_events(codes));
    assert(events.last() == code_event(code));
    assert(led_by(more, out + code_bytes(code), from, after));
}

/// What a mode of mouse reports does when it is turned on or off.
proof fn lemma_mouse(out: Seq<u8>, from: ScreenModel, to: ScreenModel, mode: MouseProtocolMode)
    requires
        leads(out, from, to),
    ensures
        mode == to.mouse_mode ==> leads(out + term::mouse_mode(mode, to.mouse_mode), from, to),
        mode != to.mouse_mode ==> leads(
            out + term::mouse_mode(mode, to.mouse_mode),
            from,
            ScreenModel { mouse_mode: mode, joins: false, ..to },
        ),
{
    if mode == to.mouse_mode {
        assert(out + term::mouse_mode(mode, to.mouse_mode) =~= out);
    } else {
        let on = mode != MouseProtocolMode::Off;
        let named = if on { mode } else { to.mouse_mode };
        let code = CodeModel::Mouse(named, on);
        let number = mouse_number(named);
        let after = ScreenModel { mouse_mode: mode, joins: false, ..to };
        let param = seq![number];
        assert(param.len() == 1 && param[0] == number);
        reveal(ScreenModel::private_mode_set);
        reveal(ScreenModel::private_mode_reset);
        lemma_mode_performed(to, number, on, after);
        lemma_code(out, from, to, code, after);
    }
}

proof fn lemma_encoding(out: Seq<u8>, from: ScreenModel, to: ScreenModel, encoding: MouseProtocolEncoding)
    requires
        leads(out, from, to),
    ensures
        encoding == to.mouse_encoding ==> leads(
            out + term::mouse_encoding(encoding, to.mouse_encoding),
            from,
            to,
        ),
        encoding != to.mouse_encoding ==> leads(
            out + term::mouse_encoding(encoding, to.mouse_encoding),
            from,
            ScreenModel { mouse_encoding: encoding, joins: false, ..to },
        ),
{
    if encoding == to.mouse_encoding {
        assert(out + term::mouse_encoding(encoding, to.mouse_encoding) =~= out);
    } else {
        let on = encoding != MouseProtocolEncoding::Default;
        let named = if on { encoding } else { to.mouse_encoding };
        let code = CodeModel::Encoding(named, on);
        let number = encoding_number(named);
        let after = ScreenModel { mouse_encoding: encoding, joins: false, ..to };
        let param = seq![number];
        assert(param.len() == 1 && param[0] == number);
        reveal(ScreenModel::private_mode_set);
        reveal(ScreenModel::private_mode_reset);
        lemma_mode_performed(to, number, on, after);
        lemma_code(out, from, to, code, after);
    }
}

proof fn lemma_keypad(out: Seq<u8>, from: ScreenModel, to: ScreenModel, on: bool)
    requires
        leads(out, from, to),
    ensures
        leads(
            out + term::switch(on, "\x1b=", "\x1b>"),
            from,
            to.parted().with_mode(MODE_APPLICATION_KEYPAD, on),
        ),
{
    let code = CodeModel::Keypad(on);
    let after = to.parted().with_mode(MODE_APPLICATION_KEYPAD, on);
    assert(to.performed(code_event(code), 0) == quiet(after)) by {
        reveal(ScreenModel::performed);
    }
    lemma_code(out, from, to, code, after);
}

proof fn lemma_cursor_keys(out: Seq<u8>, from: ScreenModel, to: ScreenModel, on: bool)
    requires
        leads(out, from, to),
    ensures
        leads(
            out + term::switch(on, "\x1b[?1h", "\x1b[?1l"),
            from,
            to.parted().with_mode(MODE_APPLICATION_CURSOR, on),
        ),
{
    let after = to.parted().with_mode(MODE_APPLICATION_CURSOR, on);
    let param = seq![1u16];
    assert(param.len() == 1 && param[0] == 1);
    reveal(ScreenModel::private_mode_set);
    reveal(ScreenModel::private_mode_reset);
    lemma_mode_performed(to, 1, on, after);
    lemma_code(out, from, to, CodeModel::CursorKeys(on), after);
}

proof fn lemma_paste(out: Seq<u8>, from: ScreenModel, to: ScreenModel, on: bool)
    requires
        leads(out, from, to),
    ensures
        leads(
            out + term::switch(on, "\x1b[?2004h", "\x1b[?2004l"),
            from,
            to.parted().with_mode(MODE_BRACKETED_PASTE, on),
        ),
{
    let after = to.parted().with_mode(MODE_BRACKETED_PASTE, on);
    let param = seq![2004u16];
    assert(param.len() == 1 && param[0] == 2004);
    reveal(ScreenModel::private_mode_set);
    reveal(ScreenModel::private_mode_reset);
    lemma_mode_performed(to, 2004, on, after);
    lemma_code(out, from, to, CodeModel::Paste(on), after);
}

/// Whether a screen has the input modes of another, and everything else as a third one
/// has it.
pub open spec fn takes_input_modes(after: ScreenModel, modes: ScreenModel, rest: ScreenModel) -> bool {
    after == (ScreenModel {
        modes: ModesModel {
            application_keypad: modes.modes.application_keypad,
            application_cursor: modes.modes.application_cursor,
            bracketed_paste: modes.modes.bracketed_paste,
            ..rest.modes
        },
        mouse_mode: modes.mouse_mode,
        mouse_encoding: modes.mouse_encoding,
        joins: after.joins,
        ..rest
    })
}

/// What is written out for the difference between the input modes of two screens turns
/// those of the one into those of the other, and nothing else.
pub proof fn law_input_mode_differences_come_back(screen: ScreenModel, prev: ScreenModel) -> (codes: Seq<
    CodeModel,
>)
    ensures
        codes_bytes(codes) == screen.input_mode_diff_bytes(Seq::empty(), prev),
        takes_input_modes(events_run(prev, codes_events(codes)).0, screen, prev),
{
    let now = screen.modes;
    let before = prev.modes;
    lemma_nothing(prev);
    let none = Seq::<u8>::empty();
    let out1 = none + changed(
        now.application_keypad,
        before.application_keypad,
        "\x1b=",
        "\x1b>",
    );
    let s1 = if now.application_keypad == before.application_keypad {
        assert(out1 =~= none);
        prev
    } else {
        lemma_keypad(none, prev, prev, now.application_keypad);
        prev.parted().with_mode(MODE_APPLICATION_KEYPAD, now.application_keypad)
    };
    let out2 = out1 + changed(
        now.application_cursor,
        before.application_cursor,
        "\x1b[?1h",
        "\x1b[?1l",
    );
    let s2 = if now.application_cursor == before.application_cursor {
        assert(out2 =~= out1);
        s1
    } else {
        lemma_cursor_keys(out1, prev, s1, now.application_cursor);
        s1.parted().with_mode(MODE_APPLICATION_CURSOR, now.application_cursor)
    };
    let out3 = out2 + changed(
        now.bracketed_paste,
        before.bracketed_paste,
        "\x1b[?2004h",
        "\x1b[?2004l",
    );
    let s3 = if now.bracketed_paste == before.bracketed_paste {
        assert(out3 =~= out2);
        s2
    } else {
        lemma_paste(out2, prev, s2, now.bracketed_paste);
        s2.parted().with_mode(MODE_BRACKETED_PASTE, now.bracketed_paste)
    };
    lemma_both_mouse(out3, prev, s3, screen)
}

/// What is written out for the input modes of a screen sets them on a screen that sends
/// no mouse reports.
pub proof fn law_input_modes_come_back(screen: ScreenModel, plain: ScreenModel) -> (codes: Seq<
    CodeModel,
>)
    requires
        plain.mouse_mode == MouseProtocolMode::Off,
        plain.mouse_encoding == MouseProtocolEncoding::Default,
    ensures
        codes_bytes(codes) == screen.input_mode_bytes(Seq::empty()),
        takes_input_modes(events_run(plain, codes_events(codes)).0, screen, plain),
{
    let now = screen.modes;
    lemma_nothing(plain);
    let none = Seq::<u8>::empty();
    lemma_keypad(none, plain, plain, now.application_keypad);
    let out1 = none + term::switch(now.application_keypad, "\x1b=", "\x1b>");
    let s1 = plain.parted().with_mode(MODE_APPLICATION_KEYPAD, now.application_keypad);
    lemma_cursor_keys(out1, plain, s1, now.application_cursor);
    let out2 = out1 + term::switch(now.application_cursor, "\x1b[?1h", "\x1b[?1l");
    let s2 = s1.parted().with_mode(MODE_APPLICATION_CURSOR, now.application_cursor);
    lemma_paste(out2, plain, s2, now.bracketed_paste);
    let out3 = out2 + term::switch(now.bracketed_paste, "\x1b[?2004h", "\x1b[?2004l");
    let s3 = s2.parted().with_mode(MODE_BRACKETED_PASTE, now.bracketed_paste);
    lemma_both_mouse(out3, plain, s3, screen)
}

/// The mode and the encoding of mouse reports, after the other modes.
proof fn lemma_both_mouse(out: Seq<u8>, prev: ScreenModel, so_far: ScreenModel, screen: ScreenModel) -> (codes: Seq<
    CodeModel,
>)
    requires
        leads(out, prev, so_far),
        so_far.mouse_mode == prev.mouse_mode,
        so_far.mouse_encoding == prev.mouse_encoding,
        takes_input_modes(
            ScreenModel {
                mouse_mode: screen.mouse_mode,
                mouse_encoding: screen.mouse_encoding,
                ..so_far
            },
            screen,
            prev,
        ),
    ensures
        codes_bytes(codes) == out + term::mouse_mode(screen.mouse_mode, prev.mouse_mode)
            + term::mouse_encoding(screen.mouse_encoding, prev.mouse_encoding),
        takes_input_modes(events_run(prev, codes_events(codes)).0, screen, prev),
{
    lemma_mouse(out, prev, so_far, screen.mouse_mode);
    let out1 = out + term::mouse_mode(screen.mouse_mode, prev.mouse_mode);
    let s1 = if screen.mouse_mode == so_far.mouse_mode {
        so_far
    } else {
        ScreenModel { mouse_mode: screen.mouse_mode, joins: false, ..so_far }
    };
    lemma_encoding(out1, prev, s1, screen.mouse_encoding);
    let out2 = out1 + term::mouse_encoding(screen.mouse_encoding, prev.mouse_encoding);
    let s2 = if screen.mouse_encoding == s1.mouse_encoding {
        s1
    } else {
        ScreenModel { mouse_encoding: screen.mouse_encoding, joins: false, ..s1 }
    };
    let codes = choose|codes: Seq<CodeModel>| led_by(codes, out2, prev, s2);
    assert(led_by(codes, out2, prev, s2));
    codes
}

} // verus!
