//! Key bindings, and the bytes that keys send to an application.

use crate::config::{BindingAction, KeyBindingConfig};
use crate::mouse::{no_selection, selected, TerminalSelection};
use crate::ratty_vt::screen_model::ScreenModel;
use crate::ratty_vt::term::push_str;
use crate::ratty_vt::Screen;
use crate::scene::{TerminalPresentation, TerminalPresentationMode};
use crate::text::{
    chars_of, lists_view, lowercase, pieces, spells, split, string_of, to_lowercase, trim, trimmed,
};
use vstd::prelude::*;
use vstd::utf8::encode_utf8;

verus! {

/// A key, by its place on the keyboard.
#[derive(Debug, Clone, Copy, PartialEq, Eq, Structural)]
pub enum KeyCode {
    /// A letter, counted from zero for `a`.
    Letter(u8),
    /// A digit of the main keyboard.
    Digit(u8),
    /// A function key.
    F(u8),
    ArrowUp,
    ArrowDown,
    ArrowLeft,
    ArrowRight,
    Enter,
    NumpadEnter,
    Tab,
    Space,
    Backspace,
    Escape,
    Delete,
    Home,
    End,
    PageUp,
    PageDown,
    Equal,
    Minus,
    NumpadAdd,
    NumpadSubtract,
    ControlLeft,
    ControlRight,
    AltLeft,
    AltRight,
    ShiftLeft,
    ShiftRight,
    SuperLeft,
    SuperRight,
    /// Any other key.
    Other,
}

/// Modifiers, held down or asked for.
#[derive(Debug, Clone, Copy, PartialEq, Eq, Structural)]
pub struct BindingModifiers {
    pub control: bool,
    pub alt: bool,
    pub shift: bool,
    pub super_key: bool,
}

impl Default for BindingModifiers {
    fn default() -> (r: Self)
        ensures
            r == no_modifiers(),
    {
        BindingModifiers { control: false, alt: false, shift: false, super_key: false }
    }
}

pub open spec fn no_modifiers() -> BindingModifiers {
    BindingModifiers { control: false, alt: false, shift: false, super_key: false }
}

/// Control and nothing else.
pub open spec fn control_only() -> BindingModifiers {
    BindingModifiers { control: true, ..no_modifiers() }
}

/// Control and alt and nothing else.
pub open spec fn control_alt() -> BindingModifiers {
    BindingModifiers { control: true, alt: true, ..no_modifiers() }
}

impl BindingModifiers {
    /// Whether all modifiers asked for are held down.
    pub open spec fn held(self, current: Self) -> bool {
        &&& self.control ==> current.control
        &&& self.alt ==> current.alt
        &&& self.shift ==> current.shift
        &&& self.super_key ==> current.super_key
    }

    /// How many modifiers are asked for.
    pub open spec fn number(self) -> nat {
        (if self.control { 1nat } else { 0 }) + (if self.alt { 1nat } else { 0 }) + (if self.shift {
            1nat
        } else {
            0
        }) + (if self.super_key { 1nat } else { 0 })
    }

    pub fn matches(self, current: Self) -> (r: bool)
        ensures
            r == self.held(current),
    {
        (!self.control || current.control) && (!self.alt || current.alt) && (!self.shift
            || current.shift) && (!self.super_key || current.super_key)
    }

    pub fn count(self) -> (r: usize)
        ensures
            r == self.number(),
            r <= 4,
    {
        (if self.control { 1 } else { 0 }) + (if self.alt { 1 } else { 0 }) + (if self.shift {
            1
        } else {
            0
        }) + (if self.super_key { 1 } else { 0 })
    }
}

/// What a key does while modifiers are held down.
#[derive(Debug, Clone, Copy, PartialEq, Eq, Structural)]
pub struct KeyBinding {
    pub key_code: KeyCode,
    pub modifiers: BindingModifiers,
    pub action: BindingAction,
}

/// A modifier, by its name.
#[derive(Debug, Clone, Copy, PartialEq, Eq, Structural)]
pub enum ParsedModifier {
    Control,
    Alt,
    Shift,
    Super,
}

/// The modifier of a name, whatever its case and the white space around it.
pub open spec fn modifier_named(token: Seq<char>) -> Option<ParsedModifier> {
    let name = lowercase(trimmed(token));
    if name == "control"@ || name == "ctrl"@ {
        Some(ParsedModifier::Control)
    } else if name == "alt"@ {
        Some(ParsedModifier::Alt)
    } else if name == "shift"@ {
        Some(ParsedModifier::Shift)
    } else if name == "super"@ || name == "cmd"@ || name == "command"@ || name == "meta"@ {
        Some(ParsedModifier::Super)
    } else {
        None
    }
}

pub fn parse_modifier(token: &Vec<char>) -> (r: Option<ParsedModifier>)
    ensures
        r == modifier_named(token@),
{
    let name = to_lowercase(&trim(token));
    if spells(&name, "control") || spells(&name, "ctrl") {
        Some(ParsedModifier::Control)
    } else if spells(&name, "alt") {
        Some(ParsedModifier::Alt)
    } else if spells(&name, "shift") {
        Some(ParsedModifier::Shift)
    } else if spells(&name, "super") || spells(&name, "cmd") || spells(&name, "command") || spells(
        &name,
        "meta",
    ) {
        Some(ParsedModifier::Super)
    } else {
        None
    }
}

/// The function key of a name: `f1` to `f12`.
pub open spec fn function_key(name: Seq<char>) -> Option<KeyCode> {
    if name.len() == 2 && name[0] == 'f' && '1' <= name[1] && name[1] <= '9' {
        Some(KeyCode::F((name[1] as u32 - 48) as u8))
    } else if name.len() == 3 && name[0] == 'f' && name[1] == '1' && '0' <= name[2] && name[2] <= '2' {
        Some(KeyCode::F((name[2] as u32 - 38) as u8))
    } else {
        None
    }
}

/// The key of a name, whatever its case and the white space around it.
pub open spec fn key_named(token: Seq<char>) -> Option<KeyCode> {
    let name = lowercase(trimmed(token));
    if name.len() == 1 && 'a' <= name[0] && name[0] <= 'z' {
        Some(KeyCode::Letter((name[0] as u32 - 97) as u8))
    } else if name.len() == 1 && '0' <= name[0] && name[0] <= '9' {
        Some(KeyCode::Digit((name[0] as u32 - 48) as u8))
    } else if function_key(name) is Some {
        function_key(name)
    } else if name == "up"@ {
        Some(KeyCode::ArrowUp)
    } else if name == "down"@ {
        Some(KeyCode::ArrowDown)
    } else if name == "left"@ {
        Some(KeyCode::ArrowLeft)
    } else if name == "right"@ {
        Some(KeyCode::ArrowRight)
    } else if name == "enter"@ {
        Some(KeyCode::Enter)
    } else if name == "tab"@ {
        Some(KeyCode::Tab)
    } else if name == "space"@ {
        Some(KeyCode::Space)
    } else if name == "backspace"@ {
        Some(KeyCode::Backspace)
    } else if name == "escape"@ || name == "esc"@ {
        Some(KeyCode::Escape)
    } else if name == "delete"@ {
        Some(KeyCode::Delete)
    } else if name == "home"@ {
        Some(KeyCode::Home)
    } else if name == "end"@ {
        Some(KeyCode::End)
    } else if name == "pageup"@ || name == "page_up"@ {
        Some(KeyCode::PageUp)
    } else if name == "pagedown"@ || name == "page_down"@ {
        Some(KeyCode::PageDown)
    } else if name == "equal"@ || name == "="@ || name == "plus"@ || name == "+"@ {
        Some(KeyCode::Equal)
    } else if name == "minus"@ || name == "-"@ {
        Some(KeyCode::Minus)
    } else if name == "numpadadd"@ || name == "numpad_add"@ {
        Some(KeyCode::NumpadAdd)
    } else if name == "numpadsubtract"@ || name == "numpad_subtract"@ {
        Some(KeyCode::NumpadSubtract)
    } else {
        None
    }
}

fn parse_function_key(name: &Vec<char>) -> (r: Option<KeyCode>)
    ensures
        r == function_key(name@),
{
    if name.len() == 2 && name[0] == 'f' && '1' <= name[1] && name[1] <= '9' {
        Some(KeyCode::F(name[1] as u8 - 48))
    } else if name.len() == 3 && name[0] == 'f' && name[1] == '1' && '0' <= name[2] && name[2] <= '2' {
        Some(KeyCode::F(name[2] as u8 - 38))
    } else {
        None
    }
}

pub fn parse_key_code(token: &Vec<char>) -> (r: Option<KeyCode>)
    ensures
        r == key_named(token@),
{
    let name = to_lowercase(&trim(token));
    if name.len() == 1 && 'a' <= name[0] && name[0] <= 'z' {
        return Some(KeyCode::Letter(name[0] as u8 - 97));
    }
    if name.len() == 1 && '0' <= name[0] && name[0] <= '9' {
        return Some(KeyCode::Digit(name[0] as u8 - 48));
    }
    let function_key = parse_function_key(&name);
    if function_key.is_some() {
        return function_key;
    }
    if spells(&name, "up") {
        Some(KeyCode::ArrowUp)
    } else if spells(&name, "down") {
        Some(KeyCode::ArrowDown)
    } else if spells(&name, "left") {
        Some(KeyCode::ArrowLeft)
    } else if spells(&name, "right") {
        Some(KeyCode::ArrowRight)
    } else if spells(&name, "enter") {
        Some(KeyCode::Enter)
    } else if spells(&name, "tab") {
        Some(KeyCode::Tab)
    } else if spells(&name, "space") {
        Some(KeyCode::Space)
    } else if spells(&name, "backspace") {
        Some(KeyCode::Backspace)
    } else if spells(&name, "escape") || spells(&name, "esc") {
        Some(KeyCode::Escape)
    } else if spells(&name, "delete") {
        Some(KeyCode::Delete)
    } else if spells(&name, "home") {
        Some(KeyCode::Home)
    } else if spells(&name, "end") {
        Some(KeyCode::End)
    } else if spells(&name, "pageup") || spells(&name, "page_up") {
        Some(KeyCode::PageUp)
    } else if spells(&name, "pagedown") || spells(&name, "page_down") {
        Some(KeyCode::PageDown)
    } else if spells(&name, "equal") || spells(&name, "=") || spells(&name, "plus") || spells(
        &name,
        "+",
    ) {
        Some(KeyCode::Equal)
    } else if spells(&name, "minus") || spells(&name, "-") {
        Some(KeyCode::Minus)
    } else if spells(&name, "numpadadd") || spells(&name, "numpad_add") {
        Some(KeyCode::NumpadAdd)
    } else if spells(&name, "numpadsubtract") || spells(&name, "numpad_subtract") {
        Some(KeyCode::NumpadSubtract)
    } else {
        None
    }
}

impl ParsedModifier {
    pub open spec fn added_to(self, modifiers: BindingModifiers) -> BindingModifiers {
        match self {
            ParsedModifier::Control => BindingModifiers { control: true, ..modifiers },
            ParsedModifier::Alt => BindingModifiers { alt: true, ..modifiers },
            ParsedModifier::Shift => BindingModifiers { shift: true, ..modifiers },
            ParsedModifier::Super => BindingModifiers { super_key: true, ..modifiers },
        }
    }

    pub fn apply(self, modifiers: &mut BindingModifiers)
        ensures
            *final(modifiers) == self.added_to(*old(modifiers)),
    {
        match self {
            ParsedModifier::Control => modifiers.control = true,
            ParsedModifier::Alt => modifiers.alt = true,
            ParsedModifier::Shift => modifiers.shift = true,
            ParsedModifier::Super => modifiers.super_key = true,
        }
    }
}

/// Modifiers and key read so far.
pub struct TriggerModel {
    pub modifiers: BindingModifiers,
    pub key_code: Option<KeyCode>,
}

/// The tokens of a binding read one after the other: modifiers add up, and only
/// one token can name a key. `None` as soon as another token follows a key.
pub open spec fn trigger_read(tokens: Seq<Seq<char>>) -> Option<TriggerModel>
    decreases tokens.len(),
{
    if tokens.len() == 0 {
        Some(TriggerModel { modifiers: no_modifiers(), key_code: None })
    } else {
        match trigger_read(tokens.drop_last()) {
            None => None,
            Some(before) => {
                let token = trimmed(tokens.last());
                if token.len() == 0 {
                    Some(before)
                } else {
                    match modifier_named(token) {
                        Some(modifier) => Some(
                            TriggerModel { modifiers: modifier.added_to(before.modifiers), ..before },
                        ),
                        None => if before.key_code is Some {
                            None
                        } else {
                            Some(TriggerModel { key_code: key_named(token), ..before })
                        },
                    }
                }
            },
        }
    }
}

/// The tokens of a binding as it is written.
pub open spec fn binding_tokens(config: KeyBindingConfig) -> Seq<Seq<char>> {
    pieces(config.key@, '|') + pieces(config.with@, '|')
}

/// The binding that is written, if it names a key.
pub open spec fn binding_of(config: KeyBindingConfig) -> Option<KeyBinding> {
    match trigger_read(binding_tokens(config)) {
        Some(TriggerModel { modifiers, key_code: Some(key_code) }) => Some(
            KeyBinding { key_code, modifiers, action: config.action },
        ),
        _ => None,
    }
}

impl KeyBinding {
    pub fn new(key_code: KeyCode, modifiers: BindingModifiers, action: BindingAction) -> (r: Self)
        ensures
            r == (KeyBinding { key_code, modifiers, action }),
    {
        KeyBinding { key_code, modifiers, action }
    }

    /// Reads a binding as it is written.
    pub fn from_config(config: &KeyBindingConfig) -> (r: Option<Self>)
        ensures
            r == binding_of(*config),
    {
        let mut tokens = split(&chars_of(config.key.as_str()), '|');
        let mut more = split(&chars_of(config.with.as_str()), '|');
        let ghost first = lists_view(tokens@);
        let ghost second = lists_view(more@);
        tokens.append(&mut more);
        let ghost model = lists_view(tokens@);
        assert(model =~= first + second);
        assert(model == binding_tokens(*config));
        let mut modifiers = BindingModifiers::default();
        let mut key_code: Option<KeyCode> = None;
        let mut i: usize = 0;
        assert(model.take(0) =~= Seq::<Seq<char>>::empty());
        while i < tokens.len()
            invariant
                i <= tokens@.len(),
                model == lists_view(tokens@),
                model == binding_tokens(*config),
                trigger_read(model.take(i as int)) == Some(TriggerModel { modifiers, key_code }),
            decreases tokens@.len() - i,
        {
            let token = trim(&tokens[i]);
            proof {
                assert(model.take(i + 1).drop_last() =~= model.take(i as int));
                assert(model.take(i + 1).last() == tokens@[i as int]@);
            }
            i = i + 1;
            if token.len() == 0 {
                continue;
            }
            if let Some(modifier) = parse_modifier(&token) {
                modifier.apply(&mut modifiers);
                continue;
            }
            if key_code.is_some() {
                proof {
                    assert(trigger_read(model.take(i as int)) is None);
                    lemma_trigger_stays_refused(model, i as int, model.len() as int);
                    assert(model.take(model.len() as int) =~= model);
                }
                return None;
            }
            key_code = parse_key_code(&token);
        }
        assert(model.take(i as int) =~= model);
        match key_code {
            Some(key_code) => Some(KeyBinding::new(key_code, modifiers, config.action)),
            None => None,
        }
    }

    pub fn same_trigger(&self, other: &Self) -> (r: bool)
        ensures
            r == same_trigger(*self, *other),
    {
        self.key_code == other.key_code && self.modifiers == other.modifiers
    }
}

/// Whether two bindings are for the same key and modifiers.
pub open spec fn same_trigger(a: KeyBinding, b: KeyBinding) -> bool {
    a.key_code == b.key_code && a.modifiers == b.modifiers
}

/// A binding that is refused stays refused, whatever follows.
proof fn lemma_trigger_stays_refused(tokens: Seq<Seq<char>>, n: int, m: int)
    requires
        0 <= n <= m <= tokens.len(),
        trigger_read(tokens.take(n)) is None,
    ensures
        trigger_read(tokens.take(m)) is None,
    decreases m - n,
{
    if n < m {
        lemma_trigger_stays_refused(tokens, n, m - 1);
        assert(tokens.take(m).drop_last() =~= tokens.take(m - 1));
    }
}

/// The bindings that apply without a configuration.
pub open spec fn default_bindings() -> Seq<KeyBinding> {
    seq![
        KeyBinding {
            key_code: KeyCode::Enter,
            modifiers: control_alt(),
            action: BindingAction::ToggleMode,
        },
        KeyBinding {
            key_code: KeyCode::ArrowUp,
            modifiers: control_alt(),
            action: BindingAction::IncreaseWarp,
        },
        KeyBinding {
            key_code: KeyCode::ArrowDown,
            modifiers: control_alt(),
            action: BindingAction::DecreaseWarp,
        },
        KeyBinding {
            key_code: KeyCode::Letter(2),
            modifiers: control_alt(),
            action: BindingAction::Copy,
        },
        KeyBinding {
            key_code: KeyCode::Letter(21),
            modifiers: control_alt(),
            action: BindingAction::Paste,
        },
        KeyBinding {
            key_code: KeyCode::Equal,
            modifiers: control_only(),
            action: BindingAction::IncreaseFontSize,
        },
        KeyBinding {
            key_code: KeyCode::NumpadAdd,
            modifiers: control_only(),
            action: BindingAction::IncreaseFontSize,
        },
        KeyBinding {
            key_code: KeyCode::Minus,
            modifiers: control_only(),
            action: BindingAction::DecreaseFontSize,
        },
        KeyBinding {
            key_code: KeyCode::NumpadSubtract,
            modifiers: control_only(),
            action: BindingAction::DecreaseFontSize,
        },
    ]
}

/// The first binding for the same key and modifiers.
pub open spec fn trigger_position(bindings: Seq<KeyBinding>, binding: KeyBinding, i: int) -> Option<int>
    decreases bindings.len() - i,
{
    if i < 0 || i >= bindings.len() {
        None
    } else if same_trigger(bindings[i], binding) {
        Some(i)
    } else {
        trigger_position(bindings, binding, i + 1)
    }
}

/// The bindings with one more, which takes the place of one for the same key
/// and modifiers. One without an action only takes that away.
pub open spec fn rebound(bindings: Seq<KeyBinding>, binding: KeyBinding) -> Seq<KeyBinding> {
    let rest = match trigger_position(bindings, binding, 0) {
        Some(i) => bindings.remove(i),
        None => bindings,
    };
    if binding.action == BindingAction::Unbound {
        rest
    } else {
        rest.push(binding)
    }
}

/// The bindings with the first `n` of a configuration; ones that cannot be read
/// are left out.
pub open spec fn configured(keys: Seq<KeyBindingConfig>, n: int) -> Seq<KeyBinding>
    decreases n,
{
    if n <= 0 {
        default_bindings()
    } else {
        match binding_of(keys[n - 1]) {
            Some(binding) => rebound(configured(keys, n - 1), binding),
            None => configured(keys, n - 1),
        }
    }
}

/// Whether a binding applies to a key with modifiers held down.
pub open spec fn applies(binding: KeyBinding, key_code: KeyCode, current: BindingModifiers) -> bool {
    binding.key_code == key_code && binding.modifiers.held(current)
}

/// Whether the binding at an index is the one to use: no other that applies
/// asks for more modifiers, and none after it for as many.
pub open spec fn prevails(
    bindings: Seq<KeyBinding>,
    i: int,
    key_code: KeyCode,
    current: BindingModifiers,
) -> bool {
    &&& 0 <= i < bindings.len()
    &&& applies(bindings[i], key_code, current)
    &&& forall|j: int|
        0 <= j < bindings.len() && applies(#[trigger] bindings[j], key_code, current)
            ==> bindings[j].modifiers.number() <= bindings[i].modifiers.number() && (j > i
            ==> bindings[j].modifiers.number() < bindings[i].modifiers.number())
}

/// The action of a key with modifiers held down, if a binding applies to it.
pub open spec fn bound_action(
    bindings: Seq<KeyBinding>,
    key_code: KeyCode,
    modifiers: BindingModifiers,
) -> Option<BindingAction> {
    if exists|i: int| prevails(bindings, i, key_code, modifiers) {
        let i = choose|i: int| prevails(bindings, i, key_code, modifiers);
        Some(bindings[i].action)
    } else {
        None
    }
}

/// One binding prevails at most.
proof fn lemma_one_prevails(
    bindings: Seq<KeyBinding>,
    i: int,
    key_code: KeyCode,
    modifiers: BindingModifiers,
)
    requires
        prevails(bindings, i, key_code, modifiers),
    ensures
        bound_action(bindings, key_code, modifiers) == Some(bindings[i].action),
{
    let j = choose|j: int| prevails(bindings, j, key_code, modifiers);
    assert(applies(bindings[i], key_code, modifiers));
    assert(applies(bindings[j], key_code, modifiers));
}

/// What keys do.
#[derive(Debug)]
pub struct TerminalKeyBindings {
    pub bindings: Vec<KeyBinding>,
}

impl TerminalKeyBindings {
    /// The default bindings, changed by those of a configuration.
    pub fn from_config(keys: &Vec<KeyBindingConfig>) -> (r: Self)
        ensures
            r.bindings@ == configured(keys@, keys@.len() as int),
    {
        let control_alt = BindingModifiers { control: true, alt: true, shift: false, super_key: false };
        let control = BindingModifiers { control: true, alt: false, shift: false, super_key: false };
        let mut bindings: Vec<KeyBinding> = Vec::new();
        bindings.push(KeyBinding::new(KeyCode::Enter, control_alt, BindingAction::ToggleMode));
        bindings.push(KeyBinding::new(KeyCode::ArrowUp, control_alt, BindingAction::IncreaseWarp));
        bindings.push(KeyBinding::new(KeyCode::ArrowDown, control_alt, BindingAction::DecreaseWarp));
        bindings.push(KeyBinding::new(KeyCode::Letter(2), control_alt, BindingAction::Copy));
        bindings.push(KeyBinding::new(KeyCode::Letter(21), control_alt, BindingAction::Paste));
        bindings.push(KeyBinding::new(KeyCode::Equal, control, BindingAction::IncreaseFontSize));
        bindings.push(KeyBinding::new(KeyCode::NumpadAdd, control, BindingAction::IncreaseFontSize));
        bindings.push(KeyBinding::new(KeyCode::Minus, control, BindingAction::DecreaseFontSize));
        bindings.push(
            KeyBinding::new(KeyCode::NumpadSubtract, control, BindingAction::DecreaseFontSize),
        );
        assert(bindings@ =~= default_bindings());
        let mut r = TerminalKeyBindings { bindings };
        let mut i: usize = 0;
        while i < keys.len()
            invariant
                i <= keys@.len(),
                r.bindings@ == configured(keys@, i as int),
            decreases keys@.len() - i,
        {
            if let Some(binding) = KeyBinding::from_config(&keys[i]) {
                r.rebind(binding);
            }
            i = i + 1;
        }
        r
    }

    /// Adds a binding in place of one for the same key and modifiers.
    pub fn rebind(&mut self, binding: KeyBinding)
        ensures
            final(self).bindings@ == rebound(old(self).bindings@, binding),
    {
        let mut i: usize = 0;
        while i < self.bindings.len() && !self.bindings[i].same_trigger(&binding)
            invariant
                i <= self.bindings@.len(),
                self.bindings@ == old(self).bindings@,
                trigger_position(self.bindings@, binding, 0) == trigger_position(
                    self.bindings@,
                    binding,
                    i as int,
                ),
            decreases self.bindings@.len() - i,
        {
            i = i + 1;
        }
        if i < self.bindings.len() {
            let _ = self.bindings.remove(i);
        }
        if binding.action != BindingAction::Unbound {
            self.bindings.push(binding);
        }
    }

    /// The action of a key with modifiers held down: that of the binding that
    /// asks for the most modifiers, the last of them where several do.
    pub fn action_for(&self, key_code: KeyCode, modifiers: BindingModifiers) -> (r: Option<
        BindingAction,
    >)
        ensures
            r == bound_action(self.bindings@, key_code, modifiers),
    {
        let mut best: Option<usize> = None;
        let mut i: usize = 0;
        while i < self.bindings.len()
            invariant
                i <= self.bindings@.len(),
                match best {
                    Some(b) => b < i && prevails(
                        self.bindings@.take(i as int),
                        b as int,
                        key_code,
                        modifiers,
                    ),
                    None => forall|j: int|
                        0 <= j < i ==> !applies(#[trigger] self.bindings@[j], key_code, modifiers),
                },
            decreases self.bindings@.len() - i,
        {
            let binding = self.bindings[i];
            let ghost before = self.bindings@.take(i as int);
            let ghost after = self.bindings@.take(i + 1);
            assert(after =~= before.push(binding));
            if binding.key_code == key_code && binding.modifiers.matches(modifiers) {
                let better = match best {
                    Some(b) => self.bindings[b].modifiers.count() <= binding.modifiers.count(),
                    None => true,
                };
                if better {
                    proof {
                        assert forall|j: int|
                            0 <= j < after.len() && applies(#[trigger] after[j], key_code, modifiers) implies {
                            &&& after[j].modifiers.number() <= after[i as int].modifiers.number()
                            &&& j > i ==> after[j].modifiers.number() < after[i as int].modifiers.number()
                        } by {
                            if j < i {
                                assert(before[j] == after[j]);
                                assert(self.bindings@[j] == after[j]);
                            }
                        }
                    }
                    best = Some(i);
                }
            }
            proof {
                if let Some(b) = best {
                    if b < i {
                        assert(before[b as int] == after[b as int]);
                        assert forall|j: int|
                            0 <= j < after.len() && applies(#[trigger] after[j], key_code, modifiers) implies {
                            &&& after[j].modifiers.number() <= after[b as int].modifiers.number()
                            &&& j > b ==> after[j].modifiers.number() < after[b as int].modifiers.number()
                        } by {
                            if j < i {
                                assert(before[j] == after[j]);
                            }
                        }
                    }
                }
            }
            i = i + 1;
        }
        assert(self.bindings@.take(i as int) =~= self.bindings@);
        match best {
            Some(b) => {
                proof {
                    lemma_one_prevails(self.bindings@, b as int, key_code, modifiers);
                }
                Some(self.bindings[b].action)
            },
            None => None,
        }
    }
}

/// A key event, as a window reports it.
#[derive(Debug)]
pub struct KeyEvent {
    pub key_code: KeyCode,
    /// Whether the key went down.
    pub pressed: bool,
    /// Whether the key is being held down and repeats.
    pub repeat: bool,
    /// The text that the key types.
    pub text: Option<String>,
    /// The characters of the key, if it stands for characters.
    pub characters: Option<String>,
}

/// What an application reads for a cursor key: another sequence with control
/// held down and in application cursor mode.
pub open spec fn cursor_key(
    ctrl: bool,
    application_cursor: bool,
    with_ctrl: &str,
    application: &str,
    normal: &str,
) -> Seq<u8> {
    if ctrl {
        encode_utf8(with_ctrl@)
    } else if application_cursor {
        encode_utf8(application@)
    } else {
        encode_utf8(normal@)
    }
}

/// The control character of a letter.
pub open spec fn control_byte(key_code: KeyCode) -> Option<u8> {
    match key_code {
        KeyCode::Letter(n) => if n < 26 { Some((n + 1) as u8) } else { None },
        _ => None,
    }
}

/// What an application reads for a key by itself.
pub open spec fn plain_key(
    key_code: KeyCode,
    text: Option<Seq<char>>,
    characters: Option<Seq<char>>,
    ctrl: bool,
    application_cursor: bool,
) -> Seq<u8> {
    match key_code {
        KeyCode::Enter => seq![13u8],
        KeyCode::NumpadEnter => seq![13u8],
        KeyCode::Tab => seq![9u8],
        KeyCode::Space => seq![32u8],
        KeyCode::Backspace => seq![127u8],
        KeyCode::Escape => seq![27u8],
        KeyCode::ArrowUp => cursor_key(ctrl, application_cursor, "\x1b[1;5A", "\x1bOA", "\x1b[A"),
        KeyCode::ArrowDown => cursor_key(ctrl, application_cursor, "\x1b[1;5B", "\x1bOB", "\x1b[B"),
        KeyCode::ArrowRight => cursor_key(ctrl, application_cursor, "\x1b[1;5C", "\x1bOC", "\x1b[C"),
        KeyCode::ArrowLeft => cursor_key(ctrl, application_cursor, "\x1b[1;5D", "\x1bOD", "\x1b[D"),
        KeyCode::Delete => encode_utf8("\x1b[3~"@),
        KeyCode::Home => cursor_key(false, application_cursor, "", "\x1bOH", "\x1b[H"),
        KeyCode::End => cursor_key(false, application_cursor, "", "\x1bOF", "\x1b[F"),
        KeyCode::PageUp => encode_utf8("\x1b[5~"@),
        KeyCode::PageDown => encode_utf8("\x1b[6~"@),
        _ => match (text, characters) {
            (Some(text), _) => encode_utf8(text),
            (None, Some(characters)) => encode_utf8(characters),
            (None, None) => Seq::empty(),
        },
    }
}

/// What an application reads for a key: an escape character first, if alt is
/// held down, and a control character for a letter with control.
pub open spec fn key_bytes(
    key_code: KeyCode,
    text: Option<Seq<char>>,
    characters: Option<Seq<char>>,
    ctrl: bool,
    alt: bool,
    application_cursor: bool,
) -> Seq<u8> {
    let prefix = if alt { seq![27u8] } else { Seq::empty() };
    prefix + match control_byte(key_code) {
        Some(byte) if ctrl => seq![byte],
        _ => plain_key(key_code, text, characters, ctrl, application_cursor),
    }
}

pub open spec fn text_view(text: Option<String>) -> Option<Seq<char>> {
    match text {
        Some(text) => Some(text@),
        None => None,
    }
}

fn ctrl_keycode_byte(key_code: KeyCode) -> (r: Option<u8>)
    ensures
        r == control_byte(key_code),
{
    match key_code {
        KeyCode::Letter(n) => if n < 26 { Some(n + 1) } else { None },
        _ => None,
    }
}

fn push_cursor_key(
    bytes: &mut Vec<u8>,
    ctrl: bool,
    application_cursor: bool,
    with_ctrl: &str,
    application: &str,
    normal: &str,
)
    ensures
        final(bytes)@ == old(bytes)@ + cursor_key(ctrl, application_cursor, with_ctrl, application, normal),
{
    if ctrl {
        push_str(bytes, with_ctrl);
    } else if application_cursor {
        push_str(bytes, application);
    } else {
        push_str(bytes, normal);
    }
}

/// The bytes that a key sends.
pub fn translate_key(
    key_code: KeyCode,
    text: &Option<String>,
    characters: &Option<String>,
    ctrl_pressed: bool,
    alt_pressed: bool,
    application_cursor: bool,
) -> (bytes: Vec<u8>)
    ensures
        bytes@ == key_bytes(
            key_code,
            text_view(*text),
            text_view(*characters),
            ctrl_pressed,
            alt_pressed,
            application_cursor,
        ),
{
    let mut bytes: Vec<u8> = Vec::new();
    if alt_pressed {
        bytes.push(27);
    }
    let ghost prefix = bytes@;
    assert(prefix =~= (if alt_pressed { seq![27u8] } else { Seq::empty() }));
    if ctrl_pressed {
        if let Some(ctrl) = ctrl_keycode_byte(key_code) {
            bytes.push(ctrl);
            assert(bytes@ =~= prefix + seq![ctrl]);
            return bytes;
        }
    }
    match key_code {
        KeyCode::Enter => bytes.push(13),
        KeyCode::NumpadEnter => bytes.push(13),
        KeyCode::Tab => bytes.push(9),
        KeyCode::Space => bytes.push(32),
        KeyCode::Backspace => bytes.push(127),
        KeyCode::Escape => bytes.push(27),
        KeyCode::ArrowUp => push_cursor_key(
            &mut bytes,
            ctrl_pressed,
            application_cursor,
            "\x1b[1;5A",
            "\x1bOA",
            "\x1b[A",
        ),
        KeyCode::ArrowDown => push_cursor_key(
            &mut bytes,
            ctrl_pressed,
            application_cursor,
            "\x1b[1;5B",
            "\x1bOB",
            "\x1b[B",
        ),
        KeyCode::ArrowRight => push_cursor_key(
            &mut bytes,
            ctrl_pressed,
            application_cursor,
            "\x1b[1;5C",
            "\x1bOC",
            "\x1b[C",
        ),
        KeyCode::ArrowLeft => push_cursor_key(
            &mut bytes,
            ctrl_pressed,
            application_cursor,
            "\x1b[1;5D",
            "\x1bOD",
            "\x1b[D",
        ),
        KeyCode::Delete => push_str(&mut bytes, "\x1b[3~"),
        KeyCode::Home => push_cursor_key(
            &mut bytes,
            false,
            application_cursor,
            "",
            "\x1bOH",
            "\x1b[H",
        ),
        KeyCode::End => push_cursor_key(&mut bytes, false, application_cursor, "", "\x1bOF", "\x1b[F"),
        KeyCode::PageUp => push_str(&mut bytes, "\x1b[5~"),
        KeyCode::PageDown => push_str(&mut bytes, "\x1b[6~"),
        _ => {
            if let Some(text) = text {
                push_str(&mut bytes, text.as_str());
            } else if let Some(characters) = characters {
                push_str(&mut bytes, characters.as_str());
            }
        },
    }
    assert(bytes@ =~= prefix + plain_key(
        key_code,
        text_view(*text),
        text_view(*characters),
        ctrl_pressed,
        application_cursor,
    ));
    bytes
}

pub open spec fn is_modifier(key_code: KeyCode) -> bool {
    match key_code {
        KeyCode::ControlLeft => true,
        KeyCode::ControlRight => true,
        KeyCode::AltLeft => true,
        KeyCode::AltRight => true,
        KeyCode::ShiftLeft => true,
        KeyCode::ShiftRight => true,
        KeyCode::SuperLeft => true,
        KeyCode::SuperRight => true,
        _ => false,
    }
}

pub fn is_modifier_key(key_code: KeyCode) -> (r: bool)
    ensures
        r == is_modifier(key_code),
{
    match key_code {
        KeyCode::ControlLeft => true,
        KeyCode::ControlRight => true,
        KeyCode::AltLeft => true,
        KeyCode::AltRight => true,
        KeyCode::ShiftLeft => true,
        KeyCode::ShiftRight => true,
        KeyCode::SuperLeft => true,
        KeyCode::SuperRight => true,
        _ => false,
    }
}

/// Modifiers after a modifier key went down or up.
pub open spec fn modifiers_after(held: BindingModifiers, key_code: KeyCode, pressed: bool) -> BindingModifiers {
    match key_code {
        KeyCode::ControlLeft => BindingModifiers { control: pressed, ..held },
        KeyCode::ControlRight => BindingModifiers { control: pressed, ..held },
        KeyCode::AltLeft => BindingModifiers { alt: pressed, ..held },
        KeyCode::AltRight => BindingModifiers { alt: pressed, ..held },
        KeyCode::ShiftLeft => BindingModifiers { shift: pressed, ..held },
        KeyCode::ShiftRight => BindingModifiers { shift: pressed, ..held },
        KeyCode::SuperLeft => BindingModifiers { super_key: pressed, ..held },
        KeyCode::SuperRight => BindingModifiers { super_key: pressed, ..held },
        _ => held,
    }
}

/// The state of the keyboard: which modifiers are held down.
#[derive(Debug)]
pub struct TerminalKeyboard {
    pub held: BindingModifiers,
}

impl Default for TerminalKeyboard {
    fn default() -> (r: Self)
        ensures
            r.held == no_modifiers(),
    {
        TerminalKeyboard { held: BindingModifiers::default() }
    }
}

impl TerminalKeyboard {
    /// Follows the modifiers, and translates any other key that goes down.
    pub fn handle_event_with_modes(&mut self, event: &KeyEvent, application_cursor: bool) -> (r: Option<
        Vec<u8>,
    >)
        ensures
            final(self).held == modifiers_after(old(self).held, event.key_code, event.pressed),
            match r {
                Some(bytes) => !is_modifier(event.key_code) && event.pressed && bytes@ == key_bytes(
                    event.key_code,
                    text_view(event.text),
                    text_view(event.characters),
                    old(self).held.control,
                    old(self).held.alt,
                    application_cursor,
                ),
                None => is_modifier(event.key_code) || !event.pressed,
            },
    {
        match event.key_code {
            KeyCode::ControlLeft => self.held.control = event.pressed,
            KeyCode::ControlRight => self.held.control = event.pressed,
            KeyCode::AltLeft => self.held.alt = event.pressed,
            KeyCode::AltRight => self.held.alt = event.pressed,
            KeyCode::ShiftLeft => self.held.shift = event.pressed,
            KeyCode::ShiftRight => self.held.shift = event.pressed,
            KeyCode::SuperLeft => self.held.super_key = event.pressed,
            KeyCode::SuperRight => self.held.super_key = event.pressed,
            _ => {},
        }
        if is_modifier_key(event.key_code) || !event.pressed {
            return None;
        }
        Some(
            translate_key(
                event.key_code,
                &event.text,
                &event.characters,
                self.held.control,
                self.held.alt,
                application_cursor,
            ),
        )
    }

    pub fn modifiers(&self) -> (r: BindingModifiers)
        ensures
            r == self.held,
    {
        self.held
    }
}

/// What to do about a key event.
#[derive(Debug, Clone, Copy, PartialEq, Eq, Structural)]
pub enum KeyDecision {
    /// Nothing: a held key does not repeat its action.
    Ignore,
    /// The action that the key is bound to.
    Perform(BindingAction),
    /// Hand the key to the application, and clear the selection first where the
    /// key types something.
    Forward(bool),
}

/// Whether an action repeats while its key is held down.
pub open spec fn repeats(action: BindingAction) -> bool {
    ||| action == BindingAction::IncreaseFontSize
    ||| action == BindingAction::DecreaseFontSize
    ||| action == BindingAction::IncreaseWarp
    ||| action == BindingAction::DecreaseWarp
}

pub open spec fn key_decision(
    action: Option<BindingAction>,
    key_code: KeyCode,
    pressed: bool,
    repeat: bool,
) -> KeyDecision {
    match action {
        Some(action) if pressed && repeat && !repeats(action) => KeyDecision::Ignore,
        Some(action) if pressed && action != BindingAction::Unbound => KeyDecision::Perform(action),
        _ => KeyDecision::Forward(pressed && !is_modifier(key_code)),
    }
}

/// Decides about a key event, given the action that the key is bound to.
pub fn decide_key(action: Option<BindingAction>, event: &KeyEvent) -> (r: KeyDecision)
    ensures
        r == key_decision(action, event.key_code, event.pressed, event.repeat),
{
    if event.pressed {
        if let Some(action) = action {
            let repeats = match action {
                BindingAction::IncreaseFontSize => true,
                BindingAction::DecreaseFontSize => true,
                BindingAction::IncreaseWarp => true,
                BindingAction::DecreaseWarp => true,
                _ => false,
            };
            if event.repeat && !repeats {
                return KeyDecision::Ignore;
            }
            if action != BindingAction::Unbound {
                return KeyDecision::Perform(action);
            }
        }
    }
    KeyDecision::Forward(event.pressed && !is_modifier_key(event.key_code))
}

/// What is left to do about a key event.
#[derive(Debug)]
pub enum KeyAction {
    /// Nothing.
    Ignore,
    /// Send bytes to the application.
    Send(Vec<u8>),
    /// Put text on the clipboard.
    Copy(String),
    /// Paste the text on the clipboard.
    Paste,
    /// Bend the plane more, or less.
    AdjustWarp(bool),
    /// Make the font larger, or smaller.
    AdjustFontSize(bool),
}

pub enum KeyActionModel {
    Ignore,
    Send(Seq<u8>),
    Copy(Seq<char>),
    Paste,
    AdjustWarp(bool),
    AdjustFontSize(bool),
}

impl View for KeyAction {
    type V = KeyActionModel;

    open spec fn view(&self) -> KeyActionModel {
        match self {
            KeyAction::Ignore => KeyActionModel::Ignore,
            KeyAction::Send(bytes) => KeyActionModel::Send(bytes@),
            KeyAction::Copy(text) => KeyActionModel::Copy(text@),
            KeyAction::Paste => KeyActionModel::Paste,
            KeyAction::AdjustWarp(more) => KeyActionModel::AdjustWarp(*more),
            KeyAction::AdjustFontSize(larger) => KeyActionModel::AdjustFontSize(*larger),
        }
    }
}

/// What became of a key event.
#[derive(Debug)]
pub struct KeyOutcome {
    pub action: KeyAction,
    /// Whether the terminal is to be drawn again.
    pub redraw: bool,
}

/// The text that a selection copies: none where nothing is selected.
pub open spec fn copied(selection: TerminalSelection, screen: ScreenModel) -> KeyActionModel {
    match selection.bounds() {
        Some(bounds) => if selected(screen, bounds).len() > 0 {
            KeyActionModel::Copy(selected(screen, bounds))
        } else {
            KeyActionModel::Ignore
        },
        None => KeyActionModel::Ignore,
    }
}

/// What a key event does to the selection and to the way the terminal is shown.
pub struct KeyStepModel {
    pub selection: TerminalSelection,
    pub mode: TerminalPresentationMode,
    pub action: KeyActionModel,
    pub redraw: bool,
}

impl KeyStepModel {
    pub open spec fn idle(selection: TerminalSelection, mode: TerminalPresentationMode) -> Self {
        KeyStepModel { selection, mode, action: KeyActionModel::Ignore, redraw: false }
    }

    /// With the selection cleared, which is drawn again if there was one.
    pub open spec fn deselected(self) -> Self {
        KeyStepModel {
            selection: no_selection(),
            redraw: self.redraw || self.selection.holds_something(),
            ..self
        }
    }

    /// With the action of a binding performed.
    pub open spec fn performed(self, action: BindingAction, screen: ScreenModel) -> Self {
        match action {
            BindingAction::Unbound => self,
            BindingAction::ToggleMode => KeyStepModel {
                mode: self.mode.toggled(),
                redraw: true,
                ..self
            }.deselected(),
            BindingAction::IncreaseWarp => KeyStepModel {
                action: KeyActionModel::AdjustWarp(true),
                redraw: true,
                ..self
            },
            BindingAction::DecreaseWarp => KeyStepModel {
                action: KeyActionModel::AdjustWarp(false),
                redraw: true,
                ..self
            },
            BindingAction::Copy => KeyStepModel {
                action: copied(self.selection, screen),
                ..self
            }.deselected(),
            BindingAction::Paste => KeyStepModel {
                action: KeyActionModel::Paste,
                ..self
            }.deselected(),
            BindingAction::IncreaseFontSize => KeyStepModel {
                action: KeyActionModel::AdjustFontSize(true),
                ..self
            },
            BindingAction::DecreaseFontSize => KeyStepModel {
                action: KeyActionModel::AdjustFontSize(false),
                ..self
            },
        }
    }

    /// With a key handed to the application.
    pub open spec fn forwarded(
        self,
        event: KeyEvent,
        held: BindingModifiers,
        application_cursor: bool,
    ) -> Self {
        if event.pressed && !is_modifier(event.key_code) {
            KeyStepModel {
                action: KeyActionModel::Send(
                    key_bytes(
                        event.key_code,
                        text_view(event.text),
                        text_view(event.characters),
                        held.control,
                        held.alt,
                        application_cursor,
                    ),
                ),
                ..self
            }.deselected()
        } else {
            self
        }
    }

    /// With a key event handled.
    pub open spec fn handled(
        self,
        event: KeyEvent,
        held: BindingModifiers,
        bindings: Seq<KeyBinding>,
        screen: ScreenModel,
    ) -> Self {
        let action = bound_action(bindings, event.key_code, held);
        match key_decision(action, event.key_code, event.pressed, event.repeat) {
            KeyDecision::Ignore => self,
            KeyDecision::Perform(action) => self.performed(action, screen),
            KeyDecision::Forward(_) => self.forwarded(
                event,
                held,
                screen.modes.application_cursor,
            ),
        }
    }
}

/// The modifiers that are held down after a key event: a bound key leaves them alone.
pub open spec fn held_after(
    event: KeyEvent,
    held: BindingModifiers,
    bindings: Seq<KeyBinding>,
) -> BindingModifiers {
    let action = bound_action(bindings, event.key_code, held);
    match key_decision(action, event.key_code, event.pressed, event.repeat) {
        KeyDecision::Forward(_) => modifiers_after(held, event.key_code, event.pressed),
        _ => held,
    }
}

/// Performs the action that a key is bound to.
fn perform_binding(
    action: BindingAction,
    selection: &mut TerminalSelection,
    presentation: &mut TerminalPresentation,
    screen: &Screen,
) -> (r: KeyOutcome)
    requires
        screen@.wf(),
    ensures
        (KeyStepModel {
            selection: *final(selection),
            mode: final(presentation).mode,
            action: r.action@,
            redraw: r.redraw,
        }) == KeyStepModel::idle(*old(selection), old(presentation).mode).performed(action, screen@),
{
    match action {
        BindingAction::Unbound => KeyOutcome { action: KeyAction::Ignore, redraw: false },
        BindingAction::ToggleMode => {
            presentation.toggle();
            let _ = selection.clear();
            KeyOutcome { action: KeyAction::Ignore, redraw: true }
        },
        BindingAction::IncreaseWarp => KeyOutcome {
            action: KeyAction::AdjustWarp(true),
            redraw: true,
        },
        BindingAction::DecreaseWarp => KeyOutcome {
            action: KeyAction::AdjustWarp(false),
            redraw: true,
        },
        BindingAction::Copy => {
            let action = match selection.selected_text(screen) {
                Some(text) => if chars_of(text.as_str()).len() > 0 {
                    KeyAction::Copy(text)
                } else {
                    KeyAction::Ignore
                },
                None => KeyAction::Ignore,
            };
            let redraw = selection.clear();
            KeyOutcome { action, redraw }
        },
        BindingAction::Paste => {
            let redraw = selection.clear();
            KeyOutcome { action: KeyAction::Paste, redraw }
        },
        BindingAction::IncreaseFontSize => KeyOutcome {
            action: KeyAction::AdjustFontSize(true),
            redraw: false,
        },
        BindingAction::DecreaseFontSize => KeyOutcome {
            action: KeyAction::AdjustFontSize(false),
            redraw: false,
        },
    }
}

/// Handles a key event: performs what the key is bound to, or hands the key to the
/// application.
pub fn handle_keyboard_input(
    event: &KeyEvent,
    keyboard: &mut TerminalKeyboard,
    bindings: &TerminalKeyBindings,
    selection: &mut TerminalSelection,
    presentation: &mut TerminalPresentation,
    screen: &Screen,
) -> (r: KeyOutcome)
    requires
        screen@.wf(),
    ensures
        (KeyStepModel {
            selection: *final(selection),
            mode: final(presentation).mode,
            action: r.action@,
            redraw: r.redraw,
        }) == KeyStepModel::idle(*old(selection), old(presentation).mode).handled(
            *event,
            old(keyboard).held,
            bindings.bindings@,
            screen@,
        ),
        final(keyboard).held == held_after(*event, old(keyboard).held, bindings.bindings@),
{
    let action = bindings.action_for(event.key_code, keyboard.modifiers());
    match decide_key(action, event) {
        KeyDecision::Ignore => KeyOutcome { action: KeyAction::Ignore, redraw: false },
        KeyDecision::Perform(action) => perform_binding(action, selection, presentation, screen),
        KeyDecision::Forward(types) => {
            let redraw = if types {
                selection.clear()
            } else {
                false
            };
            match keyboard.handle_event_with_modes(event, screen.application_cursor()) {
                Some(bytes) => KeyOutcome { action: KeyAction::Send(bytes), redraw },
                None => KeyOutcome { action: KeyAction::Ignore, redraw },
            }
        },
    }
}

/// Text with every line break, of whatever kind, as a line feed.
pub open spec fn line_feeds_only(text: Seq<char>) -> Seq<char>
    decreases text.len(),
{
    if text.len() == 0 {
        Seq::empty()
    } else if text.last() == '\r' {
        line_feeds_only(text.drop_last()).push('\n')
    } else if text.last() == '\n' && text.len() > 1 && text[text.len() - 2] == '\r' {
        line_feeds_only(text.drop_last())
    } else {
        line_feeds_only(text.drop_last()).push(text.last())
    }
}

/// What an application reads for pasted text: line feeds for line breaks, and
/// the text between paste brackets.
pub open spec fn pasted(text: Seq<char>) -> Seq<u8> {
    encode_utf8("\x1b[200~"@) + encode_utf8(line_feeds_only(text)) + encode_utf8("\x1b[201~"@)
}

pub fn paste_bytes(text: &str) -> (bytes: Vec<u8>)
    ensures
        bytes@ == pasted(text@),
{
    let chars = chars_of(text);
    let mut normalized: Vec<char> = Vec::new();
    let mut i: usize = 0;
    assert(chars@.take(0) =~= Seq::<char>::empty());
    while i < chars.len()
        invariant
            i <= chars@.len(),
            normalized@ == line_feeds_only(chars@.take(i as int)),
        decreases chars@.len() - i,
    {
        let c: char = chars[i];
        proof {
            let next = chars@.take(i + 1);
            assert(next.drop_last() =~= chars@.take(i as int));
            assert(next.last() == c);
            if i > 0 {
                assert(next[next.len() - 2] == chars@[i - 1]);
            }
        }
        if c == '\r' {
            normalized.push('\n');
        } else if !(c == '\n' && i > 0 && chars[i - 1] == '\r') {
            normalized.push(c);
        }
        i = i + 1;
    }
    assert(chars@.take(i as int) =~= text@);
    let normalized = string_of(&normalized);
    let mut bytes: Vec<u8> = Vec::new();
    push_str(&mut bytes, "\x1b[200~");
    push_str(&mut bytes, normalized.as_str());
    push_str(&mut bytes, "\x1b[201~");
    assert(bytes@ =~= pasted(text@));
    bytes
}

/// Pasted text never holds a carriage return, which an application would take
/// for the enter key.
pub proof fn law_pasted_text_holds_no_carriage_return(text: Seq<char>)
    ensures
        forall|i: int| 0 <= i < line_feeds_only(text).len() ==> line_feeds_only(text)[i] != '\r',
    decreases text.len(),
{
    if text.len() > 0 {
        law_pasted_text_holds_no_carriage_return(text.drop_last());
        let before = line_feeds_only(text.drop_last());
        let after = line_feeds_only(text);
        assert forall|i: int| 0 <= i < after.len() implies after[i] != '\r' by {
            if i < before.len() {
                assert(after[i] == before[i]);
            }
        }
    }
}

/// A configured binding is the only one for its key and modifiers afterwards,
/// if it was at most replacing one.
pub proof fn law_rebinding_replaces(bindings: Seq<KeyBinding>, binding: KeyBinding)
    requires
        forall|i: int, j: int|
            0 <= i < j < bindings.len() ==> !same_trigger(bindings[i], #[trigger] bindings[j])
                || !same_trigger(#[trigger] bindings[i], binding),
    ensures
        ({
            let after = rebound(bindings, binding);
            &&& binding.action != BindingAction::Unbound ==> after.last() == binding
            &&& forall|i: int|
                0 <= i < after.len() && same_trigger(#[trigger] after[i], binding) ==> i == after.len() - 1
                    && binding.action != BindingAction::Unbound
        }),
{
    lemma_trigger_position(bindings, binding, 0);
    let rest = match trigger_position(bindings, binding, 0) {
        Some(i) => bindings.remove(i),
        None => bindings,
    };
    assert forall|k: int| 0 <= k < rest.len() implies !same_trigger(#[trigger] rest[k], binding) by {
        match trigger_position(bindings, binding, 0) {
            Some(i) => {
                if k >= i {
                    assert(rest[k] == bindings[k + 1]);
                    assert(!same_trigger(bindings[i], bindings[k + 1]) || !same_trigger(bindings[i], binding));
                } else {
                    assert(rest[k] == bindings[k]);
                }
            },
            None => {},
        }
    }
}

proof fn lemma_trigger_position(bindings: Seq<KeyBinding>, binding: KeyBinding, from: int)
    requires
        0 <= from <= bindings.len(),
    ensures
        match trigger_position(bindings, binding, from) {
            Some(i) => from <= i < bindings.len() && same_trigger(bindings[i], binding) && forall|k: int|
                from <= k < i ==> !same_trigger(#[trigger] bindings[k], binding),
            None => forall|k: int|
                from <= k < bindings.len() ==> !same_trigger(#[trigger] bindings[k], binding),
        },
    decreases bindings.len() - from,
{
    if from < bindings.len() && !same_trigger(bindings[from], binding) {
        lemma_trigger_position(bindings, binding, from + 1);
    }
}

} // verus!
