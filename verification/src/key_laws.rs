//! What keys send and what they are bound to.

use crate::config::{BindingAction, KeyBindingConfig};
use crate::keyboard::{
    applies, bound_action, configured, default_bindings, held_after, key_bytes, key_named, line_feeds_only,
    modifier_named, pasted, prevails, rebound, same_trigger, trigger_position, trigger_read,
    BindingModifiers, KeyActionModel, KeyBinding, KeyCode, KeyEvent, KeyStepModel,
    ParsedModifier,
};
use crate::mouse::{selected, TerminalSelection};
use crate::ratty_vt::screen_model::ScreenModel;
use crate::ratty_vt::term::lemma_ascii_bytes;
use crate::scene::TerminalPresentationMode;
use crate::text::{lowercase, pieces, trimmed};
use vstd::prelude::*;
use vstd::utf8::encode_utf8;

verus! {

/// The letter that the sequences of a cursor key end in.
pub open spec fn cursor_letter(key_code: KeyCode) -> u8 {
    match key_code {
        KeyCode::ArrowUp => 65,
        KeyCode::ArrowDown => 66,
        KeyCode::ArrowRight => 67,
        _ => 68,
    }
}

/// A cursor key sends `ESC [` and its letter, `ESC O` and its letter where the application
/// asked for that, and with control `ESC [ 1 ; 5` and its letter.
pub proof fn law_cursor_keys_send_letters(
    key_code: KeyCode,
    text: Option<Seq<char>>,
    characters: Option<Seq<char>>,
    application: bool,
)
    requires
        key_code is ArrowUp || key_code is ArrowDown || key_code is ArrowRight
            || key_code is ArrowLeft,
    ensures
        key_bytes(key_code, text, characters, false, false, false) == seq![
            27u8,
            91u8,
            cursor_letter(key_code),
        ],
        key_bytes(key_code, text, characters, false, false, true) == seq![
            27u8,
            79u8,
            cursor_letter(key_code),
        ],
        key_bytes(key_code, text, characters, true, false, application) == seq![
            27u8,
            91u8,
            49u8,
            59u8,
            53u8,
            cursor_letter(key_code),
        ],
{
    reveal_strlit("\x1b[1;5A");
    reveal_strlit("\x1b[1;5B");
    reveal_strlit("\x1b[1;5C");
    reveal_strlit("\x1b[1;5D");
    reveal_strlit("\x1bOA");
    reveal_strlit("\x1bOB");
    reveal_strlit("\x1bOC");
    reveal_strlit("\x1bOD");
    reveal_strlit("\x1b[A");
    reveal_strlit("\x1b[B");
    reveal_strlit("\x1b[C");
    reveal_strlit("\x1b[D");
    lemma_ascii_bytes("\x1b[1;5A"@);
    lemma_ascii_bytes("\x1b[1;5B"@);
    lemma_ascii_bytes("\x1b[1;5C"@);
    lemma_ascii_bytes("\x1b[1;5D"@);
    lemma_ascii_bytes("\x1bOA"@);
    lemma_ascii_bytes("\x1bOB"@);
    lemma_ascii_bytes("\x1bOC"@);
    lemma_ascii_bytes("\x1bOD"@);
    lemma_ascii_bytes("\x1b[A"@);
    lemma_ascii_bytes("\x1b[B"@);
    lemma_ascii_bytes("\x1b[C"@);
    lemma_ascii_bytes("\x1b[D"@);
    assert(key_bytes(key_code, text, characters, false, false, false) =~= seq![
        27u8,
        91u8,
        cursor_letter(key_code),
    ]);
    assert(key_bytes(key_code, text, characters, false, false, true) =~= seq![
        27u8,
        79u8,
        cursor_letter(key_code),
    ]);
    assert(key_bytes(key_code, text, characters, true, false, application) =~= seq![
        27u8,
        91u8,
        49u8,
        59u8,
        53u8,
        cursor_letter(key_code),
    ]);
}

/// Enter sends a carriage return, tab a tab, backspace a delete character, escape an escape
/// character, the space bar a space; delete, home, end and the page keys send the sequences
/// that terminals send for them.
pub proof fn law_special_keys_send_their_bytes(
    text: Option<Seq<char>>,
    characters: Option<Seq<char>>,
    ctrl: bool,
    application: bool,
)
    ensures
        key_bytes(KeyCode::Enter, text, characters, ctrl, false, application) == seq![13u8],
        key_bytes(KeyCode::NumpadEnter, text, characters, ctrl, false, application) == seq![13u8],
        key_bytes(KeyCode::Tab, text, characters, ctrl, false, application) == seq![9u8],
        key_bytes(KeyCode::Backspace, text, characters, ctrl, false, application) == seq![127u8],
        key_bytes(KeyCode::Escape, text, characters, ctrl, false, application) == seq![27u8],
        key_bytes(KeyCode::Space, text, characters, ctrl, false, application) == seq![32u8],
        key_bytes(KeyCode::Delete, text, characters, ctrl, false, application) == seq![
            27u8,
            91u8,
            51u8,
            126u8,
        ],
        key_bytes(KeyCode::PageUp, text, characters, ctrl, false, application) == seq![
            27u8,
            91u8,
            53u8,
            126u8,
        ],
        key_bytes(KeyCode::PageDown, text, characters, ctrl, false, application) == seq![
            27u8,
            91u8,
            54u8,
            126u8,
        ],
        key_bytes(KeyCode::Home, text, characters, ctrl, false, application) == seq![
            27u8,
            if application {
                79u8
            } else {
                91u8
            },
            72u8,
        ],
        key_bytes(KeyCode::End, text, characters, ctrl, false, application) == seq![
            27u8,
            if application {
                79u8
            } else {
                91u8
            },
            70u8,
        ],
{
    reveal_strlit("\x1b[3~");
    reveal_strlit("\x1b[5~");
    reveal_strlit("\x1b[6~");
    reveal_strlit("\x1bOH");
    reveal_strlit("\x1b[H");
    reveal_strlit("\x1bOF");
    reveal_strlit("\x1b[F");
    lemma_ascii_bytes("\x1b[3~"@);
    lemma_ascii_bytes("\x1b[5~"@);
    lemma_ascii_bytes("\x1b[6~"@);
    lemma_ascii_bytes("\x1bOH"@);
    lemma_ascii_bytes("\x1b[H"@);
    lemma_ascii_bytes("\x1bOF"@);
    lemma_ascii_bytes("\x1b[F"@);
    assert(key_bytes(KeyCode::Enter, text, characters, ctrl, false, application) =~= seq![13u8]);
    assert(key_bytes(KeyCode::NumpadEnter, text, characters, ctrl, false, application)
        =~= seq![13u8]);
    assert(key_bytes(KeyCode::Tab, text, characters, ctrl, false, application) =~= seq![9u8]);
    assert(key_bytes(KeyCode::Backspace, text, characters, ctrl, false, application)
        =~= seq![127u8]);
    assert(key_bytes(KeyCode::Escape, text, characters, ctrl, false, application) =~= seq![27u8]);
    assert(key_bytes(KeyCode::Space, text, characters, ctrl, false, application) =~= seq![32u8]);
    assert(key_bytes(KeyCode::Delete, text, characters, ctrl, false, application) =~= seq![
        27u8,
        91u8,
        51u8,
        126u8,
    ]);
    assert(key_bytes(KeyCode::PageUp, text, characters, ctrl, false, application) =~= seq![
        27u8,
        91u8,
        53u8,
        126u8,
    ]);
    assert(key_bytes(KeyCode::PageDown, text, characters, ctrl, false, application) =~= seq![
        27u8,
        91u8,
        54u8,
        126u8,
    ]);
    let middle = if application { 79u8 } else { 91u8 };
    assert(key_bytes(KeyCode::Home, text, characters, ctrl, false, application) =~= seq![
        27u8,
        middle,
        72u8,
    ]);
    assert(key_bytes(KeyCode::End, text, characters, ctrl, false, application) =~= seq![
        27u8,
        middle,
        70u8,
    ]);
}

/// A key that types text sends the text, or else its characters; a letter with control sends
/// the control character of its number in the alphabet; and with alt every key sends an
/// escape character first.
pub proof fn law_keys_send_what_they_type(
    key_code: KeyCode,
    text: Option<Seq<char>>,
    characters: Option<Seq<char>>,
    ctrl: bool,
    alt: bool,
    application: bool,
    typed: Seq<char>,
    letter: u8,
)
    requires
        letter < 26,
    ensures
        key_bytes(key_code, text, characters, ctrl, true, application) == seq![27u8] + key_bytes(
            key_code,
            text,
            characters,
            ctrl,
            false,
            application,
        ),
        key_bytes(KeyCode::Letter(letter), Some(typed), characters, false, false, application)
            == encode_utf8(typed),
        key_bytes(KeyCode::Digit(letter), Some(typed), characters, ctrl, false, application)
            == encode_utf8(typed),
        key_bytes(KeyCode::Other, Some(typed), characters, ctrl, false, application)
            == encode_utf8(typed),
        key_bytes(KeyCode::Letter(letter), None, Some(typed), false, false, application)
            == encode_utf8(typed),
        key_bytes(KeyCode::Letter(letter), text, characters, true, false, application) == seq![
            (letter + 1) as u8,
        ],
{
    let plain = key_bytes(key_code, text, characters, ctrl, false, application);
    assert(key_bytes(key_code, text, characters, ctrl, true, application) =~= seq![27u8] + plain);
    assert(Seq::<u8>::empty() + encode_utf8(typed) =~= encode_utf8(typed));
    assert(key_bytes(KeyCode::Letter(letter), text, characters, true, false, application) =~= seq![
        (letter + 1) as u8,
    ]);
}

// Bindings.

/// How many modifiers a binding asks for.
pub open spec fn asked_for(m: BindingModifiers) -> int {
    (if m.control {
        1int
    } else {
        0
    }) + (if m.alt {
        1int
    } else {
        0
    }) + (if m.shift {
        1int
    } else {
        0
    }) + (if m.super_key {
        1int
    } else {
        0
    })
}

/// Whether a binding is for a key, and asks for no modifier that is not held down.
pub open spec fn is_triggered(
    binding: KeyBinding,
    key_code: KeyCode,
    held: BindingModifiers,
) -> bool {
    &&& binding.key_code == key_code
    &&& binding.modifiers.control ==> held.control
    &&& binding.modifiers.alt ==> held.alt
    &&& binding.modifiers.shift ==> held.shift
    &&& binding.modifiers.super_key ==> held.super_key
}

/// A key does what a binding says that it triggers; of several that with the most modifiers,
/// and of those the last. A key that triggers none does nothing of the kind.
pub proof fn law_the_closest_binding_counts(
    bindings: Seq<KeyBinding>,
    key_code: KeyCode,
    held: BindingModifiers,
    i: int,
)
    requires
        0 <= i < bindings.len(),
        is_triggered(bindings[i], key_code, held),
        forall|j: int|
            0 <= j < bindings.len() && is_triggered(#[trigger] bindings[j], key_code, held) ==> {
                &&& asked_for(bindings[j].modifiers) <= asked_for(bindings[i].modifiers)
                &&& j > i ==> asked_for(bindings[j].modifiers) < asked_for(bindings[i].modifiers)
            },
    ensures
        bound_action(bindings, key_code, held) == Some(bindings[i].action),
{
    assert forall|j: int|
        0 <= j < bindings.len() && applies(#[trigger] bindings[j], key_code, held) implies bindings[j].modifiers.number()
        <= bindings[i].modifiers.number() && (j > i ==> bindings[j].modifiers.number()
        < bindings[i].modifiers.number()) by {
        assert(is_triggered(bindings[j], key_code, held));
    }
    assert(prevails(bindings, i, key_code, held));
    let k = choose|k: int| prevails(bindings, k, key_code, held);
    assert(applies(bindings[k], key_code, held));
    assert(applies(bindings[i], key_code, held));
}

/// A key that triggers no binding is not bound.
pub proof fn law_other_keys_are_not_bound(
    bindings: Seq<KeyBinding>,
    key_code: KeyCode,
    held: BindingModifiers,
)
    requires
        forall|j: int|
            0 <= j < bindings.len() ==> !is_triggered(#[trigger] bindings[j], key_code, held),
    ensures
        bound_action(bindings, key_code, held) is None,
{
    if exists|i: int| prevails(bindings, i, key_code, held) {
        let i = choose|i: int| prevails(bindings, i, key_code, held);
        assert(is_triggered(bindings[i], key_code, held));
    }
}

/// Rebinding a key leaves the bindings of all others as they are, and in their order.
pub proof fn law_rebinding_leaves_the_others(
    bindings: Seq<KeyBinding>,
    binding: KeyBinding,
    other: KeyBinding,
)
    requires
        other.key_code != binding.key_code || other.modifiers != binding.modifiers,
    ensures
        rebound(bindings, binding).contains(other) <==> bindings.contains(other),
        binding.action != BindingAction::Unbound ==> rebound(bindings, binding).contains(binding),
{
    lemma_first_trigger(bindings, binding, 0);
    let after = rebound(bindings, binding);
    let place = trigger_position(bindings, binding, 0);
    if bindings.contains(other) {
        let k = bindings.index_of(other);
        let moved = match place {
            Some(i) => if k < i {
                k
            } else {
                k - 1
            },
            None => k,
        };
        assert(after[moved] == other);
    }
    if after.contains(other) {
        let k = after.index_of(other);
        let from = match place {
            Some(i) => if k < i {
                k
            } else {
                k + 1
            },
            None => k,
        };
        assert(bindings[from] == other);
    }
    if binding.action != BindingAction::Unbound {
        assert(after[after.len() - 1] == binding);
    }
}

proof fn lemma_first_trigger(bindings: Seq<KeyBinding>, binding: KeyBinding, from: int)
    requires
        0 <= from,
    ensures
        trigger_position(bindings, binding, from) matches Some(i) ==> from <= i < bindings.len()
            && same_trigger(bindings[i], binding),
    decreases bindings.len() - from,
{
    if from < bindings.len() && !same_trigger(bindings[from], binding) {
        lemma_first_trigger(bindings, binding, from + 1);
    }
}

/// Without a configuration, control and alt with enter switch the mode, with the arrows bend
/// the plane more and less, with C copy and with V paste, and control with plus and minus
/// makes the font larger and smaller; with fewer modifiers none of these is bound.
pub proof fn law_keys_are_bound_by_default(held: BindingModifiers)
    ensures
        held.control && held.alt ==> {
            let bindings = default_bindings();
            &&& bound_action(bindings, KeyCode::Enter, held) == Some(BindingAction::ToggleMode)
            &&& bound_action(bindings, KeyCode::ArrowUp, held) == Some(BindingAction::IncreaseWarp)
            &&& bound_action(bindings, KeyCode::ArrowDown, held) == Some(BindingAction::DecreaseWarp)
            &&& bound_action(bindings, KeyCode::Letter(2), held) == Some(BindingAction::Copy)
            &&& bound_action(bindings, KeyCode::Letter(21), held) == Some(BindingAction::Paste)
        },
        held.control ==> {
            let bindings = default_bindings();
            &&& bound_action(bindings, KeyCode::Equal, held) == Some(BindingAction::IncreaseFontSize)
            &&& bound_action(bindings, KeyCode::Minus, held) == Some(BindingAction::DecreaseFontSize)
            &&& bound_action(bindings, KeyCode::NumpadAdd, held) == Some(
                BindingAction::IncreaseFontSize,
            )
            &&& bound_action(bindings, KeyCode::NumpadSubtract, held) == Some(
                BindingAction::DecreaseFontSize,
            )
        },
        !held.control ==> {
            let bindings = default_bindings();
            &&& bound_action(bindings, KeyCode::Enter, held) is None
            &&& bound_action(bindings, KeyCode::Letter(2), held) is None
            &&& bound_action(bindings, KeyCode::Letter(21), held) is None
            &&& bound_action(bindings, KeyCode::Equal, held) is None
        },
{
    let bindings = default_bindings();
    if held.control && held.alt {
        law_the_closest_binding_counts(bindings, KeyCode::Enter, held, 0);
        law_the_closest_binding_counts(bindings, KeyCode::ArrowUp, held, 1);
        law_the_closest_binding_counts(bindings, KeyCode::ArrowDown, held, 2);
        law_the_closest_binding_counts(bindings, KeyCode::Letter(2), held, 3);
        law_the_closest_binding_counts(bindings, KeyCode::Letter(21), held, 4);
    }
    if held.control {
        law_the_closest_binding_counts(bindings, KeyCode::Equal, held, 5);
        law_the_closest_binding_counts(bindings, KeyCode::NumpadAdd, held, 6);
        law_the_closest_binding_counts(bindings, KeyCode::Minus, held, 7);
        law_the_closest_binding_counts(bindings, KeyCode::NumpadSubtract, held, 8);
    } else {
        law_other_keys_are_not_bound(bindings, KeyCode::Enter, held);
        law_other_keys_are_not_bound(bindings, KeyCode::Letter(2), held);
        law_other_keys_are_not_bound(bindings, KeyCode::Letter(21), held);
        law_other_keys_are_not_bound(bindings, KeyCode::Equal, held);
    }
}

/// A modifier in a binding adds to those before it, and a key takes its place behind them;
/// a second key has the binding refused.
pub proof fn law_triggers_are_read_in_order(tokens: Seq<Seq<char>>, token: Seq<char>)
    requires
        trigger_read(tokens) is Some,
        trimmed(token).len() > 0,
    ensures
        ({
            let before = trigger_read(tokens)->0;
            let after = trigger_read(tokens.push(token));
            let modifier = modifier_named(trimmed(token));
            &&& modifier is Some ==> after is Some && after->0.key_code == before.key_code
            &&& modifier == Some(ParsedModifier::Control) ==> after->0.modifiers == (BindingModifiers {
                control: true,
                ..before.modifiers
            })
            &&& modifier == Some(ParsedModifier::Alt) ==> after->0.modifiers == (BindingModifiers {
                alt: true,
                ..before.modifiers
            })
            &&& modifier == Some(ParsedModifier::Shift) ==> after->0.modifiers == (BindingModifiers {
                shift: true,
                ..before.modifiers
            })
            &&& modifier == Some(ParsedModifier::Super) ==> after->0.modifiers == (BindingModifiers {
                super_key: true,
                ..before.modifiers
            })
            &&& modifier is None && before.key_code is None ==> after is Some && after->0.key_code
                == key_named(trimmed(token)) && after->0.modifiers == before.modifiers
            &&& modifier is None && before.key_code is Some ==> after is None
        }),
{
    assert(tokens.push(token).drop_last() =~= tokens);
}

/// Keys and modifiers have the names that one expects, in whatever case and with whatever
/// white space around them.
pub proof fn law_keys_have_names(token: Seq<char>, name: Seq<char>)
    requires
        lowercase(trimmed(token)) == name,
    ensures
        name.len() == 1 && 'a' <= name[0] && name[0] <= 'z' ==> key_named(token) == Some(
            KeyCode::Letter((name[0] as int - 'a' as int) as u8),
        ),
        name.len() == 1 && '0' <= name[0] && name[0] <= '9' ==> key_named(token) == Some(
            KeyCode::Digit((name[0] as int - '0' as int) as u8),
        ),
        name.len() == 2 && name[0] == 'f' && '1' <= name[1] && name[1] <= '9' ==> key_named(token)
            == Some(KeyCode::F((name[1] as int - '0' as int) as u8)),
        name.len() == 3 && name[0] == 'f' && name[1] == '1' && '0' <= name[2] && name[2] <= '2'
            ==> key_named(token) == Some(KeyCode::F((10 + (name[2] as int - '0' as int)) as u8)),
        name == "up"@ ==> key_named(token) == Some(KeyCode::ArrowUp),
        name == "down"@ ==> key_named(token) == Some(KeyCode::ArrowDown),
        name == "left"@ ==> key_named(token) == Some(KeyCode::ArrowLeft),
        name == "right"@ ==> key_named(token) == Some(KeyCode::ArrowRight),
        name == "enter"@ ==> key_named(token) == Some(KeyCode::Enter),
        name == "tab"@ ==> key_named(token) == Some(KeyCode::Tab),
        name == "escape"@ ==> key_named(token) == Some(KeyCode::Escape),
        name == "home"@ ==> key_named(token) == Some(KeyCode::Home),
        name == "end"@ ==> key_named(token) == Some(KeyCode::End),
        name == "control"@ || name == "ctrl"@ ==> modifier_named(token) == Some(
            ParsedModifier::Control,
        ),
        name == "alt"@ ==> modifier_named(token) == Some(ParsedModifier::Alt),
        name == "shift"@ ==> modifier_named(token) == Some(ParsedModifier::Shift),
        name == "super"@ || name == "cmd"@ || name == "command"@ || name == "meta"@
            ==> modifier_named(token) == Some(ParsedModifier::Super),
{
    reveal_strlit("up");
    reveal_strlit("down");
    reveal_strlit("left");
    reveal_strlit("right");
    reveal_strlit("enter");
    reveal_strlit("tab");
    reveal_strlit("space");
    reveal_strlit("backspace");
    reveal_strlit("escape");
    reveal_strlit("esc");
    reveal_strlit("delete");
    reveal_strlit("home");
    reveal_strlit("end");
    reveal_strlit("control");
    reveal_strlit("ctrl");
    reveal_strlit("alt");
    reveal_strlit("shift");
    reveal_strlit("super");
    reveal_strlit("cmd");
    reveal_strlit("command");
    reveal_strlit("meta");
}

// Events.

/// The bytes of a key are sent when it goes down and is bound to nothing, and what was
/// selected is no longer; nothing is sent when it goes up, or for a modifier by itself.
pub proof fn law_keys_are_sent_to_the_application(
    selection: TerminalSelection,
    mode: TerminalPresentationMode,
    event: KeyEvent,
    held: BindingModifiers,
    bindings: Seq<KeyBinding>,
    screen: ScreenModel,
)
    requires
        bound_action(bindings, event.key_code, held) is None,
    ensures
        ({
            let after = KeyStepModel::idle(selection, mode).handled(event, held, bindings, screen);
            let modifier = event.key_code is ControlLeft || event.key_code is ControlRight
                || event.key_code is AltLeft || event.key_code is AltRight
                || event.key_code is ShiftLeft || event.key_code is ShiftRight
                || event.key_code is SuperLeft || event.key_code is SuperRight;
            &&& event.pressed && !modifier ==> {
                &&& after.action matches KeyActionModel::Send(bytes) && bytes == key_bytes(
                    event.key_code,
                    crate::keyboard::text_view(event.text),
                    crate::keyboard::text_view(event.characters),
                    held.control,
                    held.alt,
                    screen.modes.application_cursor,
                )
                &&& after.selection.start is None && after.selection.end is None
            }
            &&& !event.pressed || modifier ==> after.action is Ignore && after.selection == selection
            &&& after.mode == mode
        }),
{
}

/// A modifier is held down from when its key goes down to when it goes up, on either side;
/// no other is touched.
pub proof fn law_modifiers_are_held_down(
    event: KeyEvent,
    held: BindingModifiers,
    bindings: Seq<KeyBinding>,
)
    requires
        bound_action(bindings, event.key_code, held) is None,
    ensures
        ({
            let after = held_after(event, held, bindings);
            let key = event.key_code;
            &&& after.control == (if key is ControlLeft || key is ControlRight {
                event.pressed
            } else {
                held.control
            })
            &&& after.alt == (if key is AltLeft || key is AltRight {
                event.pressed
            } else {
                held.alt
            })
            &&& after.shift == (if key is ShiftLeft || key is ShiftRight {
                event.pressed
            } else {
                held.shift
            })
            &&& after.super_key == (if key is SuperLeft || key is SuperRight {
                event.pressed
            } else {
                held.super_key
            })
        }),
{
}

/// A key that is bound does what it is bound to when it goes down, and the application does
/// not get it: copying takes what is selected, and it is no longer selected then; switching
/// the mode goes between the flat terminal and the plane. Held down, only what bends the
/// plane or sizes the font is done again.
pub proof fn law_bound_keys_do_what_they_say(
    selection: TerminalSelection,
    mode: TerminalPresentationMode,
    event: KeyEvent,
    held: BindingModifiers,
    bindings: Seq<KeyBinding>,
    screen: ScreenModel,
    action: BindingAction,
)
    requires
        bound_action(bindings, event.key_code, held) == Some(action),
        event.pressed,
    ensures
        ({
            let after = KeyStepModel::idle(selection, mode).handled(event, held, bindings, screen);
            let again = action == BindingAction::IncreaseWarp || action
                == BindingAction::DecreaseWarp || action == BindingAction::IncreaseFontSize
                || action == BindingAction::DecreaseFontSize;
            &&& event.repeat && !again ==> after.action is Ignore && after.selection == selection
                && after.mode == mode && !after.redraw
            &&& !event.repeat && action == BindingAction::Copy ==> {
                &&& after.selection.start is None
                &&& match selection.bounds() {
                    Some(bounds) => if selected(screen, bounds).len() > 0 {
                        after.action == KeyActionModel::Copy(selected(screen, bounds))
                    } else {
                        after.action is Ignore
                    },
                    None => after.action is Ignore,
                }
            }
            &&& !event.repeat && action == BindingAction::Paste ==> after.action is Paste
                && after.selection.start is None
            &&& !event.repeat && action == BindingAction::ToggleMode ==> {
                &&& after.mode == (if mode is Flat2d {
                    TerminalPresentationMode::Plane3d
                } else {
                    TerminalPresentationMode::Flat2d
                })
                &&& after.selection.start is None
                &&& after.redraw
            }
            &&& action == BindingAction::IncreaseWarp ==> after.action
                == KeyActionModel::AdjustWarp(true)
            &&& action == BindingAction::DecreaseWarp ==> after.action
                == KeyActionModel::AdjustWarp(false)
            &&& action == BindingAction::IncreaseFontSize ==> after.action
                == KeyActionModel::AdjustFontSize(true)
            &&& action == BindingAction::DecreaseFontSize ==> after.action
                == KeyActionModel::AdjustFontSize(false)
            &&& action != BindingAction::ToggleMode ==> after.mode == mode
            &&& held_after(event, held, bindings) == held || action == BindingAction::Unbound
        }),
{
}

// Pasting.

proof fn lemma_line_feeds_add(a: Seq<char>, b: Seq<char>)
    requires
        a.len() == 0 || b.len() == 0 || a.last() != '\r' || b[0] != '\n',
    ensures
        line_feeds_only(a + b) == line_feeds_only(a) + line_feeds_only(b),
    decreases b.len(),
{
    if b.len() == 0 {
        assert(a + b =~= a);
        assert(line_feeds_only(a) + line_feeds_only(b) =~= line_feeds_only(a));
    } else {
        let all = a + b;
        assert(all.drop_last() =~= a + b.drop_last());
        assert(all.last() == b.last());
        lemma_line_feeds_add(a, b.drop_last());
        if b.len() > 1 {
            assert(all[all.len() - 2] == b[b.len() - 2]);
        } else if a.len() > 0 {
            assert(all[all.len() - 2] == a.last());
        }
        assert(line_feeds_only(all) =~= line_feeds_only(a) + line_feeds_only(b));
    }
}

/// Text that is pasted keeps every character but its line breaks, each of which becomes one
/// line feed, whether it is written with a line feed, a carriage return or both.
pub proof fn law_pasted_text_keeps_its_lines(text: Seq<char>, a: Seq<char>, b: Seq<char>)
    requires
        b.len() > 0 ==> b[0] != '\n',
    ensures
        !text.contains('\r') ==> line_feeds_only(text) == text,
        line_feeds_only(a.push('\r') + b) == line_feeds_only(a).push('\n') + line_feeds_only(b),
        line_feeds_only(a.push('\r').push('\n') + b) == line_feeds_only(a).push('\n')
            + line_feeds_only(b),
{
    if !text.contains('\r') {
        lemma_no_carriage_return(text);
    }
    lemma_line_feeds_add(a.push('\r'), b);
    assert(a.push('\r').drop_last() =~= a);
    let both = a.push('\r').push('\n');
    lemma_line_feeds_add(both, b);
    assert(both.drop_last() =~= a.push('\r'));
    assert(both[both.len() - 2] == '\r');
}

proof fn lemma_no_carriage_return(text: Seq<char>)
    requires
        !text.contains('\r'),
    ensures
        line_feeds_only(text) == text,
    decreases text.len(),
{
    if text.len() > 0 {
        let before = text.drop_last();
        assert(text[text.len() - 1] != '\r');
        assert(!before.contains('\r')) by {
            if before.contains('\r') {
                let i = before.index_of('\r');
                assert(text[i] == '\r');
            }
        }
        lemma_no_carriage_return(before);
        if text.len() > 1 {
            assert(text[text.len() - 2] != '\r');
        }
        assert(before.push(text.last()) =~= text);
    } else {
        assert(line_feeds_only(text) =~= text);
    }
}

/// Pasted text stands between the brackets that tell an application of it.
pub proof fn law_pasted_text_is_bracketed(text: Seq<char>)
    ensures
        pasted(text) == seq![27u8, 91u8, 50u8, 48u8, 48u8, 126u8] + encode_utf8(
            line_feeds_only(text),
        ) + seq![27u8, 91u8, 50u8, 48u8, 49u8, 126u8],
{
    reveal_strlit("\x1b[200~");
    reveal_strlit("\x1b[201~");
    lemma_ascii_bytes("\x1b[200~"@);
    lemma_ascii_bytes("\x1b[201~"@);
    assert(encode_utf8("\x1b[200~"@) =~= seq![27u8, 91u8, 50u8, 48u8, 48u8, 126u8]);
    assert(encode_utf8("\x1b[201~"@) =~= seq![27u8, 91u8, 50u8, 48u8, 49u8, 126u8]);
}

/// A configuration starts from the bindings that there are by default, and each binding of it
/// that names a key, among what its key and its modifiers are written as between bars, takes
/// the place of those before it.
pub proof fn law_configurations_add_bindings(
    keys: Seq<KeyBindingConfig>,
    config: KeyBindingConfig,
    key_code: KeyCode,
)
    ensures
        configured(keys, 0) == default_bindings(),
        ({
            let tokens = pieces(config.key@, '|') + pieces(config.with@, '|');
            let trigger = trigger_read(tokens);
            let before = configured(keys, keys.len() as int);
            let after = configured(keys.push(config), keys.len() as int + 1);
            &&& trigger is None || trigger->0.key_code is None ==> after == before
            &&& trigger is Some && trigger->0.key_code == Some(key_code) ==> after == rebound(
                before,
                KeyBinding {
                    key_code,
                    modifiers: trigger->0.modifiers,
                    action: config.action,
                },
            )
        }),
{
    lemma_configured(keys, config, keys.len() as int);
}

proof fn lemma_configured(keys: Seq<KeyBindingConfig>, config: KeyBindingConfig, n: int)
    requires
        n <= keys.len(),
    ensures
        configured(keys.push(config), n) == configured(keys, n),
    decreases n,
{
    if n > 0 {
        lemma_configured(keys, config, n - 1);
    }
}

} // verus!
