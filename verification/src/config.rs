//! Settings, their defaults and the formats they are written in.

use crate::number::{Number, ONE};
use vstd::prelude::*;
use vstd::utf8::encode_utf8;

verus! {

pub const APP_NAME: &'static str = "ratty";
pub const CONFIG_PATH: &'static str = "config/ratty.toml";
pub const TERMINAL_TEXTURE_LABEL: &'static str = "ratty.parley_ratatui";
/// The bits of 10, how far the cursor is from the terminal.
pub const CURSOR_DEPTH: u32 = 0x4120_0000;
/// The bits of 6, 0.1 and 18, the scale of the cursor model and its offsets.
pub const CURSOR_SCALE: u32 = 0x40c0_0000;
pub const CURSOR_X_OFFSET: u32 = 0x3dcc_cccd;
pub const CURSOR_PLANE_OFFSET: u32 = 0x4190_0000;
/// The bits of 1.4, 2.2 and 0.08, how the cursor model moves.
pub const CURSOR_SPIN_SPEED: u32 = 0x3fb3_3333;
pub const CURSOR_BOB_SPEED: u32 = 0x400c_cccd;
pub const CURSOR_BOB_AMPLITUDE: u32 = 0x3da3_d70a;

/// All settings.
#[derive(Debug)]
pub struct AppConfig {
    pub window: WindowConfig,
    pub terminal: TerminalConfig,
    pub shell: ShellConfig,
    /// Names and values.
    pub env: Vec<(String, String)>,
    pub bindings: BindingsConfig,
    pub font: FontConfig,
    pub theme: ThemeConfig,
    pub cursor: CursorConfig,
}

impl Default for AppConfig {
    fn default() -> (r: Self)
        ensures
            call_ensures(WindowConfig::default, (), r.window),
            call_ensures(TerminalConfig::default, (), r.terminal),
            call_ensures(ShellConfig::default, (), r.shell),
            r.env@.len() == 0,
            call_ensures(BindingsConfig::default, (), r.bindings),
            call_ensures(FontConfig::default, (), r.font),
            call_ensures(ThemeConfig::default, (), r.theme),
            call_ensures(CursorConfig::default, (), r.cursor),
    {
        AppConfig {
            window: WindowConfig::default(),
            terminal: TerminalConfig::default(),
            shell: ShellConfig::default(),
            env: Vec::new(),
            bindings: BindingsConfig::default(),
            font: FontConfig::default(),
            theme: ThemeConfig::default(),
            cursor: CursorConfig::default(),
        }
    }
}

/// The size of the window.
#[derive(Clone, Copy, Debug)]
pub struct WindowConfig {
    pub width: u32,
    pub height: u32,
    pub scale_factor: Number,
}

impl Default for WindowConfig {
    fn default() -> (r: Self)
        ensures
            r == (WindowConfig { width: 960, height: 620, scale_factor: Number { bits: ONE } }),
    {
        WindowConfig { width: 960, height: 620, scale_factor: Number { bits: ONE } }
    }
}

/// The cursor model and its motion.
#[derive(Debug)]
pub struct CursorConfig {
    pub model: CursorModelConfig,
    pub animation: CursorAnimationConfig,
}

impl Default for CursorConfig {
    fn default() -> (r: Self)
        ensures
            call_ensures(CursorModelConfig::default, (), r.model),
            call_ensures(CursorAnimationConfig::default, (), r.animation),
    {
        CursorConfig {
            model: CursorModelConfig::default(),
            animation: CursorAnimationConfig::default(),
        }
    }
}

/// What the cursor looks like.
#[derive(Debug)]
pub struct CursorModelConfig {
    pub visible: bool,
    pub scale_factor: Number,
    pub x_offset: Number,
    pub plane_offset: Number,
    pub brightness: Number,
    pub path: String,
}

impl Default for CursorModelConfig {
    fn default() -> (r: Self)
        ensures
            r.visible,
            r.scale_factor == (Number { bits: CURSOR_SCALE }),
            r.x_offset == (Number { bits: CURSOR_X_OFFSET }),
            r.plane_offset == (Number { bits: CURSOR_PLANE_OFFSET }),
            r.brightness == (Number { bits: ONE }),
            r.path@ == "CairoSpinyMouse.obj"@,
    {
        CursorModelConfig {
            visible: true,
            scale_factor: Number { bits: CURSOR_SCALE },
            x_offset: Number { bits: CURSOR_X_OFFSET },
            plane_offset: Number { bits: CURSOR_PLANE_OFFSET },
            brightness: Number { bits: ONE },
            path: "CairoSpinyMouse.obj".to_string(),
        }
    }
}

/// How the cursor moves.
#[derive(Clone, Copy, Debug)]
pub struct CursorAnimationConfig {
    pub spin_speed: Number,
    pub bob_speed: Number,
    pub bob_amplitude: Number,
}

impl Default for CursorAnimationConfig {
    fn default() -> (r: Self)
        ensures
            r == (CursorAnimationConfig {
                spin_speed: Number { bits: CURSOR_SPIN_SPEED },
                bob_speed: Number { bits: CURSOR_BOB_SPEED },
                bob_amplitude: Number { bits: CURSOR_BOB_AMPLITUDE },
            }),
    {
        CursorAnimationConfig {
            spin_speed: Number { bits: CURSOR_SPIN_SPEED },
            bob_speed: Number { bits: CURSOR_BOB_SPEED },
            bob_amplitude: Number { bits: CURSOR_BOB_AMPLITUDE },
        }
    }
}

/// The size and the history of a terminal.
#[derive(Debug)]
pub struct TerminalConfig {
    pub default_cols: u16,
    pub default_rows: u16,
    pub scrollback: usize,
    /// How many lines a step of the wheel scrolls.
    pub mouse_scroll_lines: u16,
}

impl Default for TerminalConfig {
    fn default() -> (r: Self)
        ensures
            r == (TerminalConfig {
                default_cols: 104,
                default_rows: 32,
                scrollback: 10_000,
                mouse_scroll_lines: 3,
            }),
    {
        TerminalConfig {
            default_cols: 104,
            default_rows: 32,
            scrollback: 10_000,
            mouse_scroll_lines: 3,
        }
    }
}

/// The program to run in a terminal; the login shell where there is none.
#[derive(Debug)]
pub struct ShellConfig {
    pub program: Option<String>,
    pub args: Vec<String>,
}

impl Default for ShellConfig {
    fn default() -> (r: Self)
        ensures
            r.program is None,
            r.args@.len() == 0,
    {
        ShellConfig { program: None, args: Vec::new() }
    }
}

/// The key bindings of a configuration.
#[derive(Debug)]
pub struct BindingsConfig {
    pub keys: Vec<KeyBindingConfig>,
}

impl Default for BindingsConfig {
    fn default() -> (r: Self)
        ensures
            r.keys@.len() == 0,
    {
        BindingsConfig { keys: Vec::new() }
    }
}

/// One key binding as it is written: keys and modifiers separated by `|`.
#[derive(Debug)]
pub struct KeyBindingConfig {
    pub key: String,
    pub with: String,
    pub action: BindingAction,
}

/// What a key can be bound to.
#[derive(Debug, Clone, Copy, PartialEq, Eq, Structural)]
pub enum BindingAction {
    /// Nothing: takes a binding away.
    Unbound,
    ToggleMode,
    IncreaseWarp,
    DecreaseWarp,
    Copy,
    Paste,
    IncreaseFontSize,
    DecreaseFontSize,
}

/// The font of a terminal.
#[derive(Debug)]
pub struct FontConfig {
    pub family: String,
    pub style: FontStyleConfig,
    pub size: i32,
}

impl Default for FontConfig {
    fn default() -> (r: Self)
        ensures
            r.family@ == "JetBrainsMono Nerd Font Mono"@,
            r.style == FontStyleConfig::Regular,
            r.size == 14,
    {
        FontConfig {
            family: "JetBrainsMono Nerd Font Mono".to_string(),
            style: FontStyleConfig::Regular,
            size: 14,
        }
    }
}

#[derive(Debug, Clone, Copy, PartialEq, Eq, Structural)]
pub enum FontStyleConfig {
    Regular,
    Bold,
    Italic,
    BoldItalic,
}

impl Default for FontStyleConfig {
    fn default() -> (r: Self)
        ensures
            r == FontStyleConfig::Regular,
    {
        FontStyleConfig::Regular
    }
}

/// The colors of a terminal, as (red, green, blue).
#[derive(Debug)]
pub struct ThemeConfig {
    pub foreground: [u8; 3],
    pub background: [u8; 3],
    pub cursor: [u8; 3],
}

impl Default for ThemeConfig {
    fn default() -> (r: Self)
        ensures
            r.foreground@ == seq![220u8, 215u8, 186u8],
            r.background@ == seq![31u8, 31u8, 40u8],
            r.cursor@ == seq![126u8, 156u8, 216u8],
    {
        let r = ThemeConfig {
            foreground: [220, 215, 186],
            background: [31, 31, 40],
            cursor: [126, 156, 216],
        };
        assert(r.foreground@ =~= seq![220u8, 215u8, 186u8]);
        assert(r.background@ =~= seq![31u8, 31u8, 40u8]);
        assert(r.cursor@ =~= seq![126u8, 156u8, 216u8]);
        r
    }
}

/// Where a configuration comes from.
#[derive(Debug, Clone, Copy, PartialEq, Eq, Structural)]
pub enum ConfigSource {
    /// The configuration directory of the system.
    System,
    /// The working directory.
    Local,
    /// Nowhere: the defaults.
    Defaults,
}

/// The configuration file to read: that of the system before the local one.
pub fn config_source(system_exists: bool, local_exists: bool) -> (r: ConfigSource)
    ensures
        r == (if system_exists {
            ConfigSource::System
        } else if local_exists {
            ConfigSource::Local
        } else {
            ConfigSource::Defaults
        }),
{
    if system_exists {
        ConfigSource::System
    } else if local_exists {
        ConfigSource::Local
    } else {
        ConfigSource::Defaults
    }
}

/// What is wrong with a color.
#[derive(Debug, Clone, Copy, PartialEq, Eq, Structural)]
pub enum HexColorError {
    /// Not six bytes.
    Format,
    /// The red component is no number.
    Red,
    /// The green component is no number.
    Green,
    /// The blue component is no number.
    Blue,
}

/// The value of a hexadecimal digit.
pub open spec fn hex_digit(b: u8) -> Option<int> {
    if 48 <= b <= 57 {
        Some(b - 48)
    } else if 65 <= b <= 70 {
        Some(b - 55)
    } else if 97 <= b <= 102 {
        Some(b - 87)
    } else {
        None
    }
}

/// The value of two hexadecimal digits, or of one behind a plus sign.
pub open spec fn hex_pair(first: u8, second: u8) -> Option<u8> {
    match (hex_digit(first), hex_digit(second)) {
        (Some(high), Some(low)) => Some((high * 16 + low) as u8),
        (None, Some(low)) => if first == 43 { Some(low as u8) } else { None },
        _ => None,
    }
}

/// The bytes of a color without the number sign before it.
pub open spec fn hex_part(value: Seq<u8>) -> Seq<u8> {
    if value.len() > 0 && value[0] == 35 {
        value.drop_first()
    } else {
        value
    }
}

/// The color that `RRGGBB` or `#RRGGBB` stands for.
pub open spec fn hex_color(value: Seq<u8>) -> Result<Seq<u8>, HexColorError> {
    let hex = hex_part(value);
    if hex.len() != 6 {
        Err(HexColorError::Format)
    } else {
        match (hex_pair(hex[0], hex[1]), hex_pair(hex[2], hex[3]), hex_pair(hex[4], hex[5])) {
            (None, _, _) => Err(HexColorError::Red),
            (_, None, _) => Err(HexColorError::Green),
            (_, _, None) => Err(HexColorError::Blue),
            (Some(r), Some(g), Some(b)) => Ok(seq![r, g, b]),
        }
    }
}

fn read_hex_digit(b: u8) -> (r: Option<u8>)
    ensures
        match r {
            Some(digit) => hex_digit(b) == Some(digit as int) && digit < 16,
            None => hex_digit(b) is None,
        },
{
    if 48 <= b && b <= 57 {
        Some(b - 48)
    } else if 65 <= b && b <= 70 {
        Some(b - 55)
    } else if 97 <= b && b <= 102 {
        Some(b - 87)
    } else {
        None
    }
}

fn read_hex_pair(first: u8, second: u8) -> (r: Option<u8>)
    ensures
        r == hex_pair(first, second),
{
    match (read_hex_digit(first), read_hex_digit(second)) {
        (Some(high), Some(low)) => Some(high * 16 + low),
        (None, Some(low)) => if first == 43 { Some(low) } else { None },
        _ => None,
    }
}

/// Reads a color in the format `#RRGGBB`; the number sign can be left out.
pub fn parse_hex_color(value: &str) -> (r: Result<[u8; 3], HexColorError>)
    ensures
        match r {
            Ok(color) => hex_color(encode_utf8(value@)) == Ok::<Seq<u8>, HexColorError>(color@),
            Err(error) => hex_color(encode_utf8(value@)) == Err::<Seq<u8>, HexColorError>(error),
        },
{
    let bytes = value.as_bytes();
    let start: usize = if bytes.len() > 0 && bytes[0] == 35 { 1 } else { 0 };
    let ghost hex = hex_part(bytes@);
    assert(hex =~= bytes@.subrange(start as int, bytes@.len() as int));
    if bytes.len() - start != 6 {
        return Err(HexColorError::Format);
    }
    assert(hex[0] == bytes@[start as int] && hex[1] == bytes@[start + 1]);
    assert(hex[2] == bytes@[start + 2] && hex[3] == bytes@[start + 3]);
    assert(hex[4] == bytes@[start + 4] && hex[5] == bytes@[start + 5]);
    let red = match read_hex_pair(bytes[start], bytes[start + 1]) {
        Some(red) => red,
        None => return Err(HexColorError::Red),
    };
    let green = match read_hex_pair(bytes[start + 2], bytes[start + 3]) {
        Some(green) => green,
        None => return Err(HexColorError::Green),
    };
    let blue = match read_hex_pair(bytes[start + 4], bytes[start + 5]) {
        Some(blue) => blue,
        None => return Err(HexColorError::Blue),
    };
    let color: [u8; 3] = [red, green, blue];
    assert(color@ =~= seq![red, green, blue]);
    Ok(color)
}

} // verus!
