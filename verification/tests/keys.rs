//! Keys, key bindings and settings.

use ratty::config::{
    config_source, parse_hex_color, AppConfig, BindingAction, ConfigSource, FontStyleConfig,
    HexColorError, KeyBindingConfig, CURSOR_DEPTH,
};
use ratty::keyboard::{
    decide_key, handle_keyboard_input, paste_bytes, translate_key, BindingModifiers, KeyAction,
    KeyCode, KeyDecision, KeyEvent, TerminalKeyBindings, TerminalKeyboard,
};
use ratty::mouse::{CellPosition, TerminalSelection};
use ratty::ratty_vt::Parser;
use ratty::scene::{TerminalPresentation, TerminalPresentationMode};

fn binding(key: &str, with: &str, action: BindingAction) -> KeyBindingConfig {
    KeyBindingConfig { key: key.to_string(), with: with.to_string(), action }
}

fn with(control: bool, alt: bool, shift: bool) -> BindingModifiers {
    BindingModifiers { control, alt, shift, super_key: false }
}

fn event(key_code: KeyCode, pressed: bool, text: Option<&str>) -> KeyEvent {
    KeyEvent {
        key_code,
        pressed,
        repeat: false,
        text: text.map(str::to_string),
        characters: None,
    }
}

fn translated(key_code: KeyCode, text: Option<&str>, ctrl: bool, alt: bool, app: bool) -> Vec<u8> {
    translate_key(key_code, &text.map(str::to_string), &None, ctrl, alt, app)
}

#[test]
fn keys_are_translated() {
    assert_eq!(translated(KeyCode::Letter(2), Some("c"), true, false, false), b"\x03");
    assert_eq!(translated(KeyCode::Letter(2), Some("c"), false, true, false), b"\x1bc");
    assert_eq!(translated(KeyCode::Enter, None, false, false, false), b"\r");
    assert_eq!(translated(KeyCode::Backspace, None, false, false, false), b"\x7f");
    assert_eq!(translated(KeyCode::ArrowUp, None, false, false, false), b"\x1b[A");
    assert_eq!(translated(KeyCode::ArrowUp, None, false, false, true), b"\x1bOA");
    assert_eq!(translated(KeyCode::ArrowUp, None, true, false, true), b"\x1b[1;5A");
    assert_eq!(translated(KeyCode::Home, None, true, false, true), b"\x1bOH");
    assert_eq!(translated(KeyCode::Other, Some("é"), false, false, false), "é".as_bytes());
    assert_eq!(translated(KeyCode::Other, None, false, false, false), b"");
}

#[test]
fn the_keyboard_follows_its_modifiers() {
    let mut keyboard = TerminalKeyboard::default();
    let down = event(KeyCode::ControlLeft, true, None);
    assert_eq!(keyboard.handle_event_with_modes(&down, false), None);
    assert!(keyboard.modifiers().control);
    let letter = event(KeyCode::Letter(0), true, Some("a"));
    assert_eq!(keyboard.handle_event_with_modes(&letter, false), Some(vec![1]));
    let up = event(KeyCode::ControlLeft, false, None);
    assert_eq!(keyboard.handle_event_with_modes(&up, false), None);
    assert_eq!(keyboard.handle_event_with_modes(&letter, false), Some(b"a".to_vec()));
    let released = event(KeyCode::Letter(0), false, Some("a"));
    assert_eq!(keyboard.handle_event_with_modes(&released, false), None);
}

#[test]
fn bindings_come_from_the_configuration() {
    let bindings = TerminalKeyBindings::from_config(&vec![
        binding("F5", "ctrl|shift", BindingAction::ToggleMode),
        binding("nonsense", "", BindingAction::Copy),
        binding("F5", "ctrl|shift", BindingAction::Paste),
    ]);
    assert_eq!(
        bindings.action_for(KeyCode::F(5), with(true, false, true)),
        Some(BindingAction::Paste)
    );
    assert_eq!(bindings.action_for(KeyCode::F(5), with(false, false, false)), None);
}

#[test]
fn bound_keys_are_performed() {
    let press = event(KeyCode::F(5), true, None);
    assert_eq!(
        decide_key(Some(BindingAction::ToggleMode), &press),
        KeyDecision::Perform(BindingAction::ToggleMode)
    );
    let held = KeyEvent { repeat: true, ..event(KeyCode::F(5), true, None) };
    assert_eq!(decide_key(Some(BindingAction::ToggleMode), &held), KeyDecision::Ignore);
    assert_eq!(
        decide_key(Some(BindingAction::IncreaseWarp), &held),
        KeyDecision::Perform(BindingAction::IncreaseWarp)
    );
    assert_eq!(decide_key(None, &press), KeyDecision::Forward(true));
    let shift = event(KeyCode::ShiftLeft, true, None);
    assert_eq!(decide_key(None, &shift), KeyDecision::Forward(false));
}

#[test]
fn keys_reach_the_application_or_do_what_they_are_bound_to() {
    let mut parser = Parser::new(2, 10, 0);
    parser.process(b"hello\x1b[?1h");
    let mut keyboard = TerminalKeyboard::default();
    let bindings = TerminalKeyBindings::from_config(&Vec::new());
    let mut selection = TerminalSelection::default();
    let mut presentation = TerminalPresentation { mode: TerminalPresentationMode::Flat2d };
    let mut press = |key_code: KeyCode, selection: &mut TerminalSelection| {
        let outcome = handle_keyboard_input(
            &event(key_code, true, None),
            &mut keyboard,
            &bindings,
            selection,
            &mut presentation,
            parser.screen(),
        );
        (outcome.action, outcome.redraw, presentation.mode)
    };
    let flat = TerminalPresentationMode::Flat2d;
    // Up goes to the application in its own mode, and clears the selection.
    selection.begin(CellPosition { x: 0, y: 0 });
    let (action, redraw, mode) = press(KeyCode::ArrowUp, &mut selection);
    assert!(matches!(action, KeyAction::Send(bytes) if bytes == b"\x1bOA"));
    assert!(redraw && mode == flat && selection.start.is_none());
    // Modifiers leave the selection alone.
    selection.begin(CellPosition { x: 1, y: 0 });
    selection.update(CellPosition { x: 3, y: 0 });
    assert!(matches!(press(KeyCode::ControlLeft, &mut selection), (KeyAction::Ignore, false, _)));
    assert!(matches!(press(KeyCode::AltLeft, &mut selection), (KeyAction::Ignore, false, _)));
    let (action, redraw, _) = press(KeyCode::Letter(2), &mut selection);
    assert!(matches!(action, KeyAction::Copy(text) if text == "ell"));
    assert!(redraw && selection.start.is_none());
    assert!(matches!(press(KeyCode::Letter(2), &mut selection), (KeyAction::Ignore, false, _)));
    assert!(matches!(press(KeyCode::Letter(21), &mut selection), (KeyAction::Paste, false, _)));
    let warped = press(KeyCode::ArrowDown, &mut selection);
    assert!(matches!(warped, (KeyAction::AdjustWarp(false), true, _)));
    let toggled = press(KeyCode::Enter, &mut selection);
    assert!(matches!(toggled, (KeyAction::Ignore, true, TerminalPresentationMode::Plane3d)));
    let sized = press(KeyCode::Equal, &mut selection);
    assert!(matches!(sized, (KeyAction::AdjustFontSize(true), false, _)));
}

#[test]
fn pasted_line_breaks_become_line_feeds() {
    assert_eq!(paste_bytes("a\r\nb\rc\nd"), b"\x1b[200~a\nb\nc\nd\x1b[201~");
}

#[test]
fn colors_are_read() {
    assert_eq!(parse_hex_color("#1f2a3B"), Ok([0x1f, 0x2a, 0x3b]));
    assert_eq!(parse_hex_color("1f2a3B"), Ok([0x1f, 0x2a, 0x3b]));
    assert_eq!(parse_hex_color("#1f2a3"), Err(HexColorError::Format));
    assert_eq!(parse_hex_color("#xx2a3b"), Err(HexColorError::Red));
    assert_eq!(parse_hex_color("#1fxx3b"), Err(HexColorError::Green));
    assert_eq!(parse_hex_color("#1f2axx"), Err(HexColorError::Blue));
}

#[test]
fn settings_have_defaults() {
    let config = AppConfig::default();
    assert_eq!((config.window.width, config.window.height), (960, 620));
    assert_eq!(config.window.scale_factor.bits, 1.0f32.to_bits());
    assert_eq!((config.terminal.default_cols, config.terminal.default_rows), (104, 32));
    assert_eq!(config.terminal.scrollback, 10_000);
    assert_eq!(config.terminal.mouse_scroll_lines, 3);
    assert!(config.shell.program.is_none() && config.shell.args.is_empty());
    assert!(config.env.is_empty() && config.bindings.keys.is_empty());
    assert_eq!(config.font.family, "JetBrainsMono Nerd Font Mono");
    assert_eq!((config.font.style, config.font.size), (FontStyleConfig::Regular, 14));
    assert_eq!(config.theme.background, [31, 31, 40]);
    assert!(config.cursor.model.visible);
    assert_eq!(config.cursor.model.scale_factor.bits, 6.0f32.to_bits());
    assert_eq!(config.cursor.model.x_offset.bits, 0.1f32.to_bits());
    assert_eq!(config.cursor.model.plane_offset.bits, 18.0f32.to_bits());
    assert_eq!(config.cursor.model.brightness.bits, 1.0f32.to_bits());
    assert_eq!(config.cursor.model.path, "CairoSpinyMouse.obj");
    assert_eq!(config.cursor.animation.spin_speed.bits, 1.4f32.to_bits());
    assert_eq!(config.cursor.animation.bob_speed.bits, 2.2f32.to_bits());
    assert_eq!(config.cursor.animation.bob_amplitude.bits, 0.08f32.to_bits());
    assert_eq!(CURSOR_DEPTH, 10.0f32.to_bits());
    assert_eq!(config_source(true, true), ConfigSource::System);
    assert_eq!(config_source(false, true), ConfigSource::Local);
    assert_eq!(config_source(false, false), ConfigSource::Defaults);
}
