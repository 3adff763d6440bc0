//! What a terminal answers to questions.

use crate::ratty_vt::perform::NoticeModel;
use crate::ratty_vt::screen_laws::shown_grid;
use crate::ratty_vt::screen_model::ScreenModel;
use crate::ratty_vt::term::{decimal, lemma_ascii_bytes};
use crate::runtime::{
    component, components_number, csi_text, digested, hundred_to, param_text, params_text, weight,
    CallbacksModel, DIGEST_START, VERSION,
};
use crate::snapshot::number_text;
use vstd::prelude::*;
use vstd::utf8::encode_utf8;

verus! {

/// Whether a control sequence has no parameter, or the one parameter zero.
pub open spec fn is_bare(params: Seq<Seq<u16>>) -> bool {
    params.len() == 0 || params.len() == 1 && (params[0].len() == 0 || params[0] == seq![0u16])
}

/// Whether one answer was given, and nothing else happened.
pub open spec fn answered(before: CallbacksModel, after: CallbacksModel, reply: Seq<u8>) -> bool {
    &&& after.replies == before.replies.push(reply)
    &&& after.warnings == before.warnings
    &&& after.seen_csi == before.seen_csi
    &&& after.seen_escape == before.seen_escape
}

/// A terminal that is asked what it can do says so (`CSI c`), and one that is asked whether
/// it works says that it does (`CSI 5 n`).
pub proof fn law_terminals_answer_what_they_are(
    callbacks: CallbacksModel,
    screen: ScreenModel,
    params: Seq<Seq<u16>>,
)
    ensures
        is_bare(params) ==> answered(
            callbacks,
            callbacks.heard(screen, NoticeModel::Csi(None, None, params, 'c')),
            seq![27u8, 91u8, 63u8, 54u8, 50u8, 59u8, 50u8, 50u8, 99u8],
        ),
        params == seq![seq![5u16]] ==> answered(
            callbacks,
            callbacks.heard(screen, NoticeModel::Csi(None, None, params, 'n')),
            seq![27u8, 91u8, 48u8, 110u8],
        ),
        is_bare(params) ==> answered(
            callbacks,
            callbacks.heard(screen, NoticeModel::Csi(Some(62u8), None, params, 'q')),
            encode_utf8("\x1bP>|ratty "@) + encode_utf8(VERSION@) + encode_utf8("\x1b\\"@),
        ),
{
    reveal_strlit("\x1b[?62;22c");
    reveal_strlit("\x1b[0n");
    lemma_ascii_bytes("\x1b[?62;22c"@);
    lemma_ascii_bytes("\x1b[0n"@);
    assert(encode_utf8("\x1b[?62;22c"@) =~= seq![
        27u8,
        91u8,
        63u8,
        54u8,
        50u8,
        59u8,
        50u8,
        50u8,
        99u8,
    ]);
    assert(encode_utf8("\x1b[0n"@) =~= seq![27u8, 91u8, 48u8, 110u8]);
    if params.len() == 1 && params[0] == seq![0u16] {
        assert(params[0][0] == 0u16);
    }
    if params == seq![seq![5u16]] {
        assert(params[0] == seq![5u16]);
    }
}

/// A terminal that is asked where its cursor is (`CSI 6 n`) says on which row and in which
/// column, in this order and counted from one. A cursor that waits behind the last column is
/// said to be in it, and one on the second half of a wide character on the first.
pub proof fn law_terminals_answer_where_the_cursor_is(
    callbacks: CallbacksModel,
    screen: ScreenModel,
)
    requires
        screen.wf(),
    ensures
        ({
            let grid = shown_grid(screen);
            let after = callbacks.heard(
                screen,
                NoticeModel::Csi(None, None, seq![seq![6u16]], 'n'),
            );
            let row = grid.pos.row as int;
            let last = if grid.pos.col < grid.size.cols {
                grid.pos.col as int
            } else {
                grid.size.cols - 1
            };
            let col = if last > 0 && grid.rows[row].cells[last].continuation {
                last - 1
            } else {
                last
            };
            answered(
                callbacks,
                after,
                seq![27u8, 91u8] + decimal((row + 1) as nat) + seq![59u8] + decimal((col + 1) as nat)
                    + seq![82u8],
            )
        }),
{
    reveal_strlit("\x1b[");
    reveal_strlit(";");
    reveal_strlit("R");
    lemma_ascii_bytes("\x1b["@);
    lemma_ascii_bytes(";"@);
    lemma_ascii_bytes("R"@);
    assert(encode_utf8("\x1b["@) =~= seq![27u8, 91u8]);
    assert(encode_utf8(";"@) =~= seq![59u8]);
    assert(encode_utf8("R"@) =~= seq![82u8]);
    let params = seq![seq![6u16]];
    assert(params[0] == seq![6u16]);
}

/// A terminal that is asked for its keyboard flags (`CSI ? u`) says which are in force on the
/// screen that it shows: those pushed last, or none.
pub proof fn law_terminals_answer_keyboard_flags(
    callbacks: CallbacksModel,
    screen: ScreenModel,
    params: Seq<Seq<u16>>,
)
    requires
        is_bare(params),
    ensures
        ({
            let stack = if screen.modes.alternate_screen {
                screen.alternate_keyboard
            } else {
                screen.keyboard
            };
            let flags = if stack.len() == 0 {
                0
            } else {
                stack.last() as nat
            };
            answered(
                callbacks,
                callbacks.heard(screen, NoticeModel::Csi(Some(63u8), None, params, 'u')),
                seq![27u8, 91u8, 63u8] + decimal(flags) + seq![117u8],
            )
        }),
{
    reveal_strlit("\x1b[?");
    reveal_strlit("u");
    lemma_ascii_bytes("\x1b[?"@);
    lemma_ascii_bytes("u"@);
    assert(encode_utf8("\x1b[?"@) =~= seq![27u8, 91u8, 63u8]);
    assert(encode_utf8("u"@) =~= seq![117u8]);
    if params.len() == 1 && params[0] == seq![0u16] {
        assert(params[0][0] == 0u16);
    }
}

/// What is not known is answered by nothing, and is warned of the first time alone.
pub proof fn law_unknown_sequences_are_warned_of_once(
    callbacks: CallbacksModel,
    screen: ScreenModel,
    notice: NoticeModel,
)
    requires
        match notice {
            NoticeModel::Csi(i1, i2, _, c) => i2 is Some || c != 'c' && c != 'n' && c != 'q' && c
                != 'u' && c != 'h' && c != 'l',
            NoticeModel::Escape(_, _, _) => true,
            _ => false,
        },
    ensures
        ({
            let once = callbacks.heard(screen, notice);
            let twice = once.heard(screen, notice);
            &&& once.replies == callbacks.replies
            &&& callbacks.warnings.len() <= once.warnings.len() <= callbacks.warnings.len() + 1
            &&& twice == once
            &&& callbacks == CallbacksModel::fresh() ==> once.warnings.len() == 1
        }),
{
    let once = callbacks.heard(screen, notice);
    match notice {
        NoticeModel::Csi(i1, i2, params, c) => {
            let text = crate::runtime::csi_text(i1, i2, params, c);
            if !callbacks.seen_csi.contains(text) {
                assert(once.seen_csi.last() == text);
                assert(once.seen_csi.contains(text));
            }
        },
        NoticeModel::Escape(i1, i2, b) => {
            let text = crate::runtime::escape_text(i1, i2, b);
            if !callbacks.seen_escape.contains(text) {
                assert(once.seen_escape.last() == text);
                assert(once.seen_escape.contains(text));
            }
        },
        _ => {},
    }
}

/// Bells, titles and what is copied are answered by nothing and not warned of.
pub proof fn law_other_notices_are_not_answered(
    callbacks: CallbacksModel,
    screen: ScreenModel,
    notice: NoticeModel,
)
    requires
        !(notice is Csi) && !(notice is Escape),
    ensures
        callbacks.heard(screen, notice) == callbacks,
{
}

/// The number that decimal digits stand for.
pub open spec fn digits_of(digits: Seq<u8>) -> int
    decreases digits.len(),
{
    if digits.len() == 0 {
        0
    } else {
        digits_of(digits.drop_last()) * 10 + (digits.last() - 48)
    }
}

/// Numbers in answers and in sequences are written in decimal digits that stand for them.
pub proof fn law_digits_stand_for_numbers(n: nat)
    ensures
        digits_of(decimal(n)) == n,
        decimal(n).len() > 0,
        forall|i: int| 0 <= i < decimal(n).len() ==> 48 <= #[trigger] decimal(n)[i] <= 57,
        decimal(n)[0] == 48 ==> n == 0,
    decreases n,
{
    let digits = decimal(n);
    if n < 10 {
        assert(digits.drop_last() =~= Seq::<u8>::empty());
        assert(digits_of(digits.drop_last()) == 0);
    } else {
        law_digits_stand_for_numbers(n / 10);
        assert(digits.drop_last() =~= decimal(n / 10));
        assert(digits[0] == decimal(n / 10)[0]);
        assert forall|i: int| 0 <= i < digits.len() implies 48 <= #[trigger] digits[i] <= 57 by {
            if i < digits.len() - 1 {
                assert(digits[i] == decimal(n / 10)[i]);
            }
        }
    }
}

/// A version of three parts has a number with two digits for each of the last two.
pub proof fn law_versions_have_numbers(major: Seq<char>, minor: Seq<char>, patch: Seq<char>)
    requires
        0 <= component(major) < 100,
        0 <= component(minor) < 100,
        0 <= component(patch) < 100,
    ensures
        components_number(seq![major, minor, patch], 3) == 10_000 * component(major) + 100
            * component(minor) + component(patch),
{
    let parts = seq![major, minor, patch];
    reveal_with_fuel(components_number, 4);
    reveal_with_fuel(hundred_to, 3);
    assert(hundred_to(0) == 1 && hundred_to(1) == 100 && hundred_to(2) == 10_000);
    assert(weight(0) == 1 && weight(1) == 100 && weight(2) == 10_000);
    assert(parts[2] == patch && parts[1] == minor && parts[0] == major);
}

/// The digest of output takes in one byte after the other.
pub proof fn law_digests_take_in_bytes(digest: u64, bytes: Seq<u8>, b: u8)
    ensures
        digested(digest, Seq::empty()) == digest,
        digested(digest, bytes.push(b)) as int == ((digested(digest, bytes) ^ (b as u64))
            * 0x100_0000_01b3) % 0x1_0000_0000_0000_0000,
        DIGEST_START == 0xcbf2_9ce4_8422_2325,
{
    assert(bytes.push(b).drop_last() =~= bytes);
}

/// A control sequence is written as it came: behind its start its intermediates, then its
/// parameters with semicolons between them and colons within them, then its last character.
pub proof fn law_sequences_are_written_as_they_came(
    i1: Option<u8>,
    i2: Option<u8>,
    params: Seq<Seq<u16>>,
    param: Seq<u16>,
    n: u16,
    c: char,
)
    ensures
        csi_text(i1, i2, params, c) == seq!['\u{1b}', '['] + (match i1 {
            Some(byte) => seq![byte as char],
            None => Seq::empty(),
        }) + (match i2 {
            Some(byte) => seq![byte as char],
            None => Seq::empty(),
        }) + params_text(params) + seq![c],
        params_text(Seq::empty()) == Seq::<char>::empty(),
        params_text(seq![param]) == param_text(param),
        params.len() > 0 ==> params_text(params.push(param)) == params_text(params) + seq![';']
            + param_text(param),
        param_text(seq![n]) == number_text(n as nat),
        param.len() > 0 ==> param_text(param.push(n)) == param_text(param) + seq![':']
            + number_text(n as nat),
{
    reveal_strlit("\x1b[");
    assert("\x1b["@ =~= seq!['\u{1b}', '[']);
    let start = "\x1b["@ + crate::runtime::optional_char(i1) + crate::runtime::optional_char(i2)
        + params_text(params);
    assert(start.push(c) =~= start + seq![c]);
    assert(params.push(param).drop_last() =~= params);
    assert(param.push(n).drop_last() =~= param);
    assert(params_text(params).push(';') =~= params_text(params) + seq![';']);
    assert(param_text(param).push(':') =~= param_text(param) + seq![':']);
}

} // verus!
