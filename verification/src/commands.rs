//! What control commands do, and when they are refused.

use crate::camera::{OptionalVec3, TERMINAL_CAMERA_SLOT_COUNT};
use crate::control::{
    presentation_of, ControlCommand, ControlError, ControlSurfaceKind,
    CursorUpdate, EncodedKey, ErrorModel, PressKeysRequest, ResizeRequest,
    ShapeUpdate, TerminalUpdate, ViewUpdate, WindowUpdate, WriteTextRequest, MAX_AMPLITUDE,
    MAX_BRIGHTNESS, MAX_COORDINATE, MAX_CURSOR_SCALE, MAX_FONT_SIZE, MAX_FOV_DEGREES,
    MAX_INPUT_BYTES, MAX_JUMP_HEIGHT, MAX_KEYS, MAX_LATTICE, MAX_TERMINAL_SIZE, MAX_TITLE_BYTES,
    MAX_WINDOW_SIZE, MAX_ZOOM, MIN_COORDINATE, MIN_CURSOR_SCALE, MIN_FONT_SIZE, MIN_FOV_DEGREES,
    MIN_JUMP_HEIGHT, MIN_LATTICE, MIN_WINDOW_SIZE, MIN_ZOOM,
};
use crate::number::{Number, ONE, ZERO};
use crate::ratty_vt::term::{push_bytes, push_str};
use crate::scene::{TerminalPresentationMode, TerminalSurfaceKind, TerminalSurfaceShape};
use crate::snapshot::SnapshotRequest;
use vstd::prelude::*;
use vstd::utf8::encode_utf8;

verus! {

/// The cursor model and its motion.
#[derive(Clone, Copy, Debug)]
pub struct CursorSettings {
    pub visible: bool,
    pub scale: Number,
    pub x_offset: Number,
    pub depth: Number,
    pub brightness: Number,
    pub spin_speed: Number,
    pub jump_speed: Number,
    pub jump_height: Number,
}

/// A window: its size, and its place where that is known.
#[derive(Clone, Copy, Debug)]
pub struct WindowState {
    pub width: u32,
    pub height: u32,
    pub position: Option<(i32, i32)>,
}

/// What commands are seen against.
#[derive(Clone, Copy, Debug)]
pub struct ControlState {
    /// Whether the terminal child runs.
    pub connected: bool,
    /// Whether the application wants pasted text in brackets.
    pub bracketed_paste: bool,
    pub columns: u16,
    pub rows: u16,
    pub active_slot: usize,
    pub active_mode: TerminalPresentationMode,
    pub cursor: CursorSettings,
    /// The window, once there is one.
    pub window: Option<WindowState>,
}

/// A camera update as a command asks for it, with angles in degrees.
#[derive(Clone, Copy, Debug)]
pub struct ViewRequest {
    pub slot: usize,
    pub activate: bool,
    pub mode: Option<TerminalPresentationMode>,
    pub zoom: Option<Number>,
    pub fov_degrees: Option<Number>,
    pub translation: OptionalVec3,
    /// Pitch, yaw and roll.
    pub rotation_degrees: OptionalVec3,
}

/// What a command that is not refused does.
#[derive(Debug)]
pub enum ControlPlan {
    /// Tell the state of the terminal.
    ReportState,
    /// Tell what is on the screen.
    TakeSnapshot(SnapshotRequest),
    /// Write text to the application.
    WriteText { bytes: Vec<u8>, text_bytes: usize, paste_requested: bool, bracketed: bool },
    /// Write keys to the application.
    PressKeys { bytes: Vec<u8>, keys_pressed: usize },
    /// Resize the terminal.
    Resize { columns: u16, rows: u16 },
    /// End the terminal.
    Close,
    /// Set the strength of the deformation, and update a camera.
    SetView { warp: Option<Number>, view: ViewRequest },
    /// Set the cursor.
    SetCursor(CursorSettings),
    /// Set what is given of the window.
    SetWindow {
        size: Option<(u32, u32)>,
        position: Option<(i32, i32)>,
        title: Option<String>,
        background: Option<[u8; 3]>,
    },
    /// Set the font size where one is given, and resize the terminal.
    SetTerminal { columns: u16, rows: u16, font_size: Option<i32> },
    /// Set the surface, and update a camera where that does not show it.
    SetShape { shape: TerminalSurfaceShape, camera: Option<ViewRequest> },
}

/// A command that fails.
pub open spec fn failure(message: Seq<char>) -> ErrorModel {
    ErrorModel { code: "command_failed"@, message }
}

pub open spec fn optional_finite(value: Option<Number>) -> bool {
    value matches Some(number) ==> number.finite()
}

pub open spec fn optional_within(value: Option<Number>, low: u32, high: u32) -> bool {
    value matches Some(number) ==> number.between(Number { bits: low }, Number { bits: high })
}

fn is_optional_finite(value: Option<Number>) -> (r: bool)
    ensures
        r == optional_finite(value),
{
    match value {
        Some(number) => number.is_finite(),
        None => true,
    }
}

fn is_optional_within(value: Option<Number>, low: u32, high: u32) -> (r: bool)
    ensures
        r == optional_within(value, low, high),
{
    match value {
        Some(number) => number.within(Number { bits: low }, Number { bits: high }),
        None => true,
    }
}

fn failed<T>(message: &str) -> (r: Result<T, ControlError>)
    ensures
        r matches Err(error) && error@ == failure(message@),
{
    Err(ControlError::new("command_failed", message))
}

/// The bytes that text is written as: between paste brackets where the
/// application wants them.
pub open spec fn agent_text(text: Seq<char>, bracketed: bool) -> Seq<u8> {
    if bracketed {
        encode_utf8("\x1b[200~"@) + encode_utf8(text) + encode_utf8("\x1b[201~"@)
    } else {
        encode_utf8(text)
    }
}

pub fn encode_agent_text(text: &str, bracketed: bool) -> (bytes: Vec<u8>)
    ensures
        bytes@ == agent_text(text@, bracketed),
{
    let mut bytes: Vec<u8> = Vec::new();
    if bracketed {
        push_str(&mut bytes, "\x1b[200~");
    }
    push_str(&mut bytes, text);
    if bracketed {
        push_str(&mut bytes, "\x1b[201~");
    }
    assert(bytes@ =~= agent_text(text@, bracketed));
    bytes
}

pub open spec fn text_refusal(request: WriteTextRequest, state: ControlState) -> Option<ErrorModel> {
    if !state.connected {
        Some(
            ErrorModel {
                code: "terminal_disconnected"@,
                message: "cannot write text because the terminal child is not running"@,
            },
        )
    } else if encode_utf8(request.text@).len() > MAX_INPUT_BYTES {
        Some(ErrorModel { code: "input_too_large"@, message: "input exceeds 64 KiB"@ })
    } else {
        None
    }
}

fn decide_text(request: WriteTextRequest, state: &ControlState) -> (r: Result<
    ControlPlan,
    ControlError,
>)
    ensures
        match text_refusal(request, *state) {
            Some(error) => r matches Err(said) && said@ == error,
            None => r matches Ok(plan) && plans_text(plan, request, *state),
        },
{
    if !state.connected {
        return Err(
            ControlError::new(
                "terminal_disconnected",
                "cannot write text because the terminal child is not running",
            ),
        );
    }
    let text_bytes: usize = request.text.as_str().as_bytes().len();
    if text_bytes > MAX_INPUT_BYTES {
        return Err(ControlError::new("input_too_large", "input exceeds 64 KiB"));
    }
    let bracketed = request.paste && state.bracketed_paste;
    Ok(
        ControlPlan::WriteText {
            bytes: encode_agent_text(request.text.as_str(), bracketed),
            text_bytes,
            paste_requested: request.paste,
            bracketed,
        },
    )
}

pub open spec fn plans_text(
    plan: ControlPlan,
    request: WriteTextRequest,
    state: ControlState,
) -> bool {
    plan matches ControlPlan::WriteText { bytes, text_bytes, paste_requested, bracketed } && {
        &&& bracketed == (request.paste && state.bracketed_paste)
        &&& bytes@ == agent_text(request.text@, bracketed)
        &&& text_bytes == encode_utf8(request.text@).len()
        &&& paste_requested == request.paste
    }
}

/// The bytes of some keys one after another, or why they cannot be pressed: the
/// first that is not known, or the one with which they grow too long.
pub open spec fn keys_input(keys: Seq<EncodedKey>) -> Result<Seq<u8>, ErrorModel>
    decreases keys.len(),
{
    if keys.len() == 0 {
        Ok(Seq::empty())
    } else {
        match keys_input(keys.drop_last()) {
            Err(error) => Err(error),
            Ok(input) => match keys.last() {
                EncodedKey::Unknown(message) => Err(failure(message@)),
                EncodedKey::Bytes(bytes) => if input.len() + bytes@.len() > MAX_INPUT_BYTES {
                    Err(
                        ErrorModel {
                            code: "input_too_large"@,
                            message: "encoded key input exceeds 64 KiB"@,
                        },
                    )
                } else {
                    Ok(input + bytes@)
                },
            },
        }
    }
}

proof fn lemma_keys_input_stays_refused(keys: Seq<EncodedKey>, n: int)
    requires
        0 <= n <= keys.len(),
        keys_input(keys.take(n)) is Err,
    ensures
        keys_input(keys) == keys_input(keys.take(n)),
    decreases keys.len() - n,
{
    if n < keys.len() {
        assert(keys.take(n + 1).drop_last() =~= keys.take(n));
        lemma_keys_input_stays_refused(keys, n + 1);
    } else {
        assert(keys.take(n) =~= keys);
    }
}

/// Puts the bytes of keys together.
fn gather_keys(keys: &Vec<EncodedKey>) -> (r: Result<Vec<u8>, ControlError>)
    ensures
        match r {
            Ok(input) => keys_input(keys@) == Ok::<Seq<u8>, ErrorModel>(input@),
            Err(error) => keys_input(keys@) == Err::<Seq<u8>, ErrorModel>(error@),
        },
{
    let mut input: Vec<u8> = Vec::new();
    let mut i: usize = 0;
    assert(keys@.take(0) =~= Seq::<EncodedKey>::empty());
    while i < keys.len()
        invariant
            i <= keys@.len(),
            input@.len() <= MAX_INPUT_BYTES,
            keys_input(keys@.take(i as int)) == Ok::<Seq<u8>, ErrorModel>(input@),
        decreases keys@.len() - i,
    {
        assert(keys@.take(i + 1).drop_last() =~= keys@.take(i as int));
        match &keys[i] {
            EncodedKey::Unknown(message) => {
                proof {
                    lemma_keys_input_stays_refused(keys@, i + 1);
                }
                return failed(message.as_str());
            },
            EncodedKey::Bytes(bytes) => {
                if bytes.len() > MAX_INPUT_BYTES - input.len() {
                    proof {
                        lemma_keys_input_stays_refused(keys@, i + 1);
                    }
                    return Err(
                        ControlError::new("input_too_large", "encoded key input exceeds 64 KiB"),
                    );
                }
                push_bytes(&mut input, bytes.as_slice());
            },
        }
        i = i + 1;
    }
    assert(keys@.take(i as int) =~= keys@);
    Ok(input)
}

pub open spec fn keys_refusal(request: PressKeysRequest, state: ControlState) -> Option<ErrorModel> {
    if !state.connected {
        Some(
            ErrorModel {
                code: "terminal_disconnected"@,
                message: "cannot press keys because the terminal child is not running"@,
            },
        )
    } else if request.keys@.len() > MAX_KEYS {
        Some(
            ErrorModel {
                code: "input_too_large"@,
                message: "at most 256 keys may be pressed per request"@,
            },
        )
    } else {
        match keys_input(request.keys@) {
            Ok(_) => None,
            Err(error) => Some(error),
        }
    }
}

fn decide_keys(request: PressKeysRequest, state: &ControlState) -> (r: Result<
    ControlPlan,
    ControlError,
>)
    ensures
        match keys_refusal(request, *state) {
            Some(error) => r matches Err(said) && said@ == error,
            None => r matches Ok(ControlPlan::PressKeys { bytes, keys_pressed }) && keys_input(
                request.keys@,
            ) == Ok::<Seq<u8>, ErrorModel>(bytes@) && keys_pressed == request.keys@.len(),
        },
{
    if !state.connected {
        return Err(
            ControlError::new(
                "terminal_disconnected",
                "cannot press keys because the terminal child is not running",
            ),
        );
    }
    if request.keys.len() > MAX_KEYS {
        return Err(
            ControlError::new("input_too_large", "at most 256 keys may be pressed per request"),
        );
    }
    match gather_keys(&request.keys) {
        Ok(bytes) => Ok(ControlPlan::PressKeys { bytes, keys_pressed: request.keys.len() }),
        Err(error) => Err(error),
    }
}

pub open spec fn terminal_size(columns: u16, rows: u16) -> bool {
    1 <= columns <= MAX_TERMINAL_SIZE && 1 <= rows <= MAX_TERMINAL_SIZE
}

pub open spec fn size_refusal(columns: u16, rows: u16) -> Option<ErrorModel> {
    if terminal_size(columns, rows) {
        None
    } else {
        Some(failure("terminal columns and rows must be between 1 and 1000"@))
    }
}

fn is_terminal_size(columns: u16, rows: u16) -> (r: bool)
    ensures
        r == terminal_size(columns, rows),
{
    1 <= columns && columns <= MAX_TERMINAL_SIZE && 1 <= rows && rows <= MAX_TERMINAL_SIZE
}

fn decide_resize(request: ResizeRequest) -> (r: Result<ControlPlan, ControlError>)
    ensures
        match size_refusal(request.columns, request.rows) {
            Some(error) => r matches Err(said) && said@ == error,
            None => r == Ok::<ControlPlan, ControlError>(
                ControlPlan::Resize { columns: request.columns, rows: request.rows },
            ),
        },
{
    if !is_terminal_size(request.columns, request.rows) {
        return failed("terminal columns and rows must be between 1 and 1000");
    }
    Ok(ControlPlan::Resize { columns: request.columns, rows: request.rows })
}

/// The slot that a view update speaks of: the active one where it names none.
pub open spec fn view_slot(update: ViewUpdate, state: ControlState) -> int {
    match update.slot {
        Some(slot) => slot as int,
        None => state.active_slot as int,
    }
}

pub open spec fn view_finite(update: ViewUpdate) -> bool {
    &&& optional_finite(update.warp)
    &&& optional_finite(update.yaw_degrees)
    &&& optional_finite(update.pitch_degrees)
    &&& optional_finite(update.roll_degrees)
    &&& optional_finite(update.zoom)
    &&& optional_finite(update.fov_degrees)
    &&& optional_finite(update.x)
    &&& optional_finite(update.y)
    &&& optional_finite(update.z)
}

pub open spec fn view_refusal(update: ViewUpdate, state: ControlState) -> Option<ErrorModel> {
    if view_slot(update, state) >= TERMINAL_CAMERA_SLOT_COUNT {
        Some(failure("camera slot must be between 0 and 9"@))
    } else if !view_finite(update) {
        Some(failure("view values must be finite numbers"@))
    } else if !optional_within(update.warp, ZERO, ONE) {
        Some(failure("warp must be between 0 and 1"@))
    } else if !optional_within(update.zoom, MIN_ZOOM, MAX_ZOOM) {
        Some(failure("zoom must be between 0.01 and 20"@))
    } else if !optional_within(update.fov_degrees, MIN_FOV_DEGREES, MAX_FOV_DEGREES) {
        Some(failure("fov_degrees must be between 3 and 177"@))
    } else {
        None
    }
}

/// The camera update that a view update asks for. A slot that is named is
/// activated, unless the update says otherwise.
pub open spec fn view_request(update: ViewUpdate, state: ControlState) -> ViewRequest {
    ViewRequest {
        slot: view_slot(update, state) as usize,
        activate: match update.activate {
            Some(activate) => activate,
            None => update.slot is Some,
        },
        mode: match update.mode {
            Some(mode) => Some(presentation_of(mode)),
            None => None,
        },
        zoom: update.zoom,
        fov_degrees: update.fov_degrees,
        translation: OptionalVec3 { x: update.x, y: update.y, z: update.z },
        rotation_degrees: OptionalVec3 {
            x: update.pitch_degrees,
            y: update.yaw_degrees,
            z: update.roll_degrees,
        },
    }
}

fn decide_view(update: ViewUpdate, state: &ControlState) -> (r: Result<ControlPlan, ControlError>)
    ensures
        match view_refusal(update, *state) {
            Some(error) => r matches Err(said) && said@ == error,
            None => r == Ok::<ControlPlan, ControlError>(
                ControlPlan::SetView { warp: update.warp, view: view_request(update, *state) },
            ),
        },
{
    let slot: usize = match update.slot {
        Some(slot) => slot as usize,
        None => state.active_slot,
    };
    if slot >= TERMINAL_CAMERA_SLOT_COUNT {
        return failed("camera slot must be between 0 and 9");
    }
    if !(is_optional_finite(update.warp) && is_optional_finite(update.yaw_degrees)
        && is_optional_finite(update.pitch_degrees) && is_optional_finite(update.roll_degrees)
        && is_optional_finite(update.zoom) && is_optional_finite(update.fov_degrees)
        && is_optional_finite(update.x) && is_optional_finite(update.y) && is_optional_finite(
        update.z,
    )) {
        return failed("view values must be finite numbers");
    }
    if !is_optional_within(update.warp, ZERO, ONE) {
        return failed("warp must be between 0 and 1");
    }
    if !is_optional_within(update.zoom, MIN_ZOOM, MAX_ZOOM) {
        return failed("zoom must be between 0.01 and 20");
    }
    if !is_optional_within(update.fov_degrees, MIN_FOV_DEGREES, MAX_FOV_DEGREES) {
        return failed("fov_degrees must be between 3 and 177");
    }
    Ok(
        ControlPlan::SetView {
            warp: update.warp,
            view: ViewRequest {
                slot,
                activate: match update.activate {
                    Some(activate) => activate,
                    None => update.slot.is_some(),
                },
                mode: match update.mode {
                    Some(mode) => Some(TerminalPresentationMode::from(mode)),
                    None => None,
                },
                zoom: update.zoom,
                fov_degrees: update.fov_degrees,
                translation: OptionalVec3 { x: update.x, y: update.y, z: update.z },
                rotation_degrees: OptionalVec3 {
                    x: update.pitch_degrees,
                    y: update.yaw_degrees,
                    z: update.roll_degrees,
                },
            },
        },
    )
}

pub open spec fn cursor_refusal(update: CursorUpdate) -> Option<ErrorModel> {
    if !(optional_finite(update.scale) && optional_finite(update.x_offset) && optional_finite(
        update.depth,
    ) && optional_finite(update.brightness) && optional_finite(update.spin_speed)
        && optional_finite(update.jump_speed) && optional_finite(update.jump_height)) {
        Some(failure("cursor values must be finite numbers"@))
    } else if !optional_within(update.scale, MIN_CURSOR_SCALE, MAX_CURSOR_SCALE) {
        Some(failure("cursor scale must be between 0.001 and 100"@))
    } else if !optional_within(update.brightness, ZERO, MAX_BRIGHTNESS) {
        Some(failure("cursor brightness must be between 0 and 20"@))
    } else if !optional_within(update.jump_height, MIN_JUMP_HEIGHT, MAX_JUMP_HEIGHT) {
        Some(failure("jump height must be between -10 and 10"@))
    } else {
        None
    }
}

pub open spec fn or_else(wanted: Option<Number>, so_far: Number) -> Number {
    match wanted {
        Some(value) => value,
        None => so_far,
    }
}

impl CursorSettings {
    /// The settings with what an update changes.
    pub open spec fn updated(self, update: CursorUpdate) -> CursorSettings {
        CursorSettings {
            visible: match update.visible {
                Some(visible) => visible,
                None => self.visible,
            },
            scale: or_else(update.scale, self.scale),
            x_offset: or_else(update.x_offset, self.x_offset),
            depth: or_else(update.depth, self.depth),
            brightness: or_else(update.brightness, self.brightness),
            spin_speed: or_else(update.spin_speed, self.spin_speed),
            jump_speed: or_else(update.jump_speed, self.jump_speed),
            jump_height: or_else(update.jump_height, self.jump_height),
        }
    }
}

fn number_or(wanted: Option<Number>, so_far: Number) -> (r: Number)
    ensures
        r == or_else(wanted, so_far),
{
    match wanted {
        Some(value) => value,
        None => so_far,
    }
}

fn decide_cursor(update: CursorUpdate, state: &ControlState) -> (r: Result<
    ControlPlan,
    ControlError,
>)
    ensures
        match cursor_refusal(update) {
            Some(error) => r matches Err(said) && said@ == error,
            None => r == Ok::<ControlPlan, ControlError>(
                ControlPlan::SetCursor(state.cursor.updated(update)),
            ),
        },
{
    if !(is_optional_finite(update.scale) && is_optional_finite(update.x_offset)
        && is_optional_finite(update.depth) && is_optional_finite(update.brightness)
        && is_optional_finite(update.spin_speed) && is_optional_finite(update.jump_speed)
        && is_optional_finite(update.jump_height)) {
        return failed("cursor values must be finite numbers");
    }
    if !is_optional_within(update.scale, MIN_CURSOR_SCALE, MAX_CURSOR_SCALE) {
        return failed("cursor scale must be between 0.001 and 100");
    }
    if !is_optional_within(update.brightness, ZERO, MAX_BRIGHTNESS) {
        return failed("cursor brightness must be between 0 and 20");
    }
    if !is_optional_within(update.jump_height, MIN_JUMP_HEIGHT, MAX_JUMP_HEIGHT) {
        return failed("jump height must be between -10 and 10");
    }
    Ok(
        ControlPlan::SetCursor(
            CursorSettings {
                visible: match update.visible {
                    Some(visible) => visible,
                    None => state.cursor.visible,
                },
                scale: number_or(update.scale, state.cursor.scale),
                x_offset: number_or(update.x_offset, state.cursor.x_offset),
                depth: number_or(update.depth, state.cursor.depth),
                brightness: number_or(update.brightness, state.cursor.brightness),
                spin_speed: number_or(update.spin_speed, state.cursor.spin_speed),
                jump_speed: number_or(update.jump_speed, state.cursor.jump_speed),
                jump_height: number_or(update.jump_height, state.cursor.jump_height),
            },
        ),
    )
}

pub open spec fn side(wanted: Option<u32>, so_far: u32) -> u32 {
    match wanted {
        Some(value) => value,
        None => so_far,
    }
}

pub open spec fn window_side(value: u32) -> bool {
    MIN_WINDOW_SIZE <= value <= MAX_WINDOW_SIZE
}

pub open spec fn window_refusal(update: WindowUpdate, state: ControlState) -> Option<ErrorModel> {
    if update.title matches Some(title) && encode_utf8(title@).len() > MAX_TITLE_BYTES {
        Some(failure("title exceeds 1024 bytes"@))
    } else {
        match state.window {
            None => Some(failure("primary window is not ready"@)),
            Some(window) => if window_side(side(update.width, window.width)) && window_side(
                side(update.height, window.height),
            ) {
                None
            } else {
                Some(failure("window width and height must be between 64 and 16384"@))
            },
        }
    }
}

/// Whether a plan sets what an update gives of a window. A side or a coordinate
/// that it does not give stays, and a window at no known place counts as being at
/// the origin.
pub open spec fn plans_window(plan: ControlPlan, update: WindowUpdate, window: WindowState) -> bool {
    plan matches ControlPlan::SetWindow { size, position, title, background } && {
        &&& size == (if update.width is Some || update.height is Some {
            Some((side(update.width, window.width), side(update.height, window.height)))
        } else {
            None
        })
        &&& position == (if update.x is Some || update.y is Some {
            Some(
                (
                    match (update.x, window.position) {
                        (Some(x), _) => x,
                        (None, Some(at)) => at.0,
                        (None, None) => 0,
                    },
                    match (update.y, window.position) {
                        (Some(y), _) => y,
                        (None, Some(at)) => at.1,
                        (None, None) => 0,
                    },
                ),
            )
        } else {
            None
        })
        &&& title == update.title
        &&& background == update.background_rgb
    }
}

fn decide_window(update: WindowUpdate, state: &ControlState) -> (r: Result<
    ControlPlan,
    ControlError,
>)
    ensures
        match window_refusal(update, *state) {
            Some(error) => r matches Err(said) && said@ == error,
            None => r matches Ok(plan) && state.window matches Some(window) && plans_window(
                plan,
                update,
                window,
            ),
        },
{
    if let Some(title) = &update.title {
        if title.as_str().as_bytes().len() > MAX_TITLE_BYTES {
            return failed("title exceeds 1024 bytes");
        }
    }
    let window = match state.window {
        Some(window) => window,
        None => {
            return failed("primary window is not ready");
        },
    };
    let width: u32 = match update.width {
        Some(width) => width,
        None => window.width,
    };
    let height: u32 = match update.height {
        Some(height) => height,
        None => window.height,
    };
    if width < MIN_WINDOW_SIZE || width > MAX_WINDOW_SIZE || height < MIN_WINDOW_SIZE || height
        > MAX_WINDOW_SIZE {
        return failed("window width and height must be between 64 and 16384");
    }
    let (left, top) = match window.position {
        Some(at) => at,
        None => (0, 0),
    };
    Ok(
        ControlPlan::SetWindow {
            size: if update.width.is_some() || update.height.is_some() {
                Some((width, height))
            } else {
                None
            },
            position: if update.x.is_some() || update.y.is_some() {
                Some(
                    (
                        match update.x {
                            Some(x) => x,
                            None => left,
                        },
                        match update.y {
                            Some(y) => y,
                            None => top,
                        },
                    ),
                )
            } else {
                None
            },
            title: update.title,
            background: update.background_rgb,
        },
    )
}

pub open spec fn cells(wanted: Option<u16>, so_far: u16) -> u16 {
    match wanted {
        Some(value) => value,
        None => so_far,
    }
}

pub open spec fn terminal_refusal(update: TerminalUpdate, state: ControlState) -> Option<ErrorModel> {
    match size_refusal(cells(update.columns, state.columns), cells(update.rows, state.rows)) {
        Some(error) => Some(error),
        None => if update.font_size matches Some(size) && !(MIN_FONT_SIZE <= size
            <= MAX_FONT_SIZE) {
            Some(failure("font size must be between 4 and 256"@))
        } else {
            None
        },
    }
}

fn decide_terminal(update: TerminalUpdate, state: &ControlState) -> (r: Result<
    ControlPlan,
    ControlError,
>)
    ensures
        match terminal_refusal(update, *state) {
            Some(error) => r matches Err(said) && said@ == error,
            None => r == Ok::<ControlPlan, ControlError>(
                ControlPlan::SetTerminal {
                    columns: cells(update.columns, state.columns),
                    rows: cells(update.rows, state.rows),
                    font_size: update.font_size,
                },
            ),
        },
{
    let columns: u16 = match update.columns {
        Some(columns) => columns,
        None => state.columns,
    };
    let rows: u16 = match update.rows {
        Some(rows) => rows,
        None => state.rows,
    };
    if !is_terminal_size(columns, rows) {
        return failed("terminal columns and rows must be between 1 and 1000");
    }
    if let Some(size) = update.font_size {
        if size < MIN_FONT_SIZE || size > MAX_FONT_SIZE {
            return failed("font size must be between 4 and 256");
        }
    }
    Ok(ControlPlan::SetTerminal { columns, rows, font_size: update.font_size })
}

/// The amplitude of a surface: one where none is given.
pub open spec fn amplitude_of(update: ShapeUpdate) -> Number {
    match update.amplitude {
        Some(amplitude) => amplitude,
        None => Number { bits: ONE },
    }
}

pub open spec fn lattice_side(value: Option<u8>) -> u8 {
    match value {
        Some(side) => side,
        None => 0,
    }
}

pub open spec fn points_of(update: ShapeUpdate) -> Seq<[Number; 3]> {
    match update.control_points {
        Some(points) => points@,
        None => Seq::empty(),
    }
}

pub open spec fn coordinate(value: Number) -> bool {
    value.finite() && value.between(
        Number { bits: MIN_COORDINATE },
        Number { bits: MAX_COORDINATE },
    )
}

pub open spec fn point_ok(point: [Number; 3]) -> bool {
    coordinate(point@[0]) && coordinate(point@[1]) && coordinate(point@[2])
}

pub open spec fn points_ok(points: Seq<[Number; 3]>) -> bool {
    forall|i: int| 0 <= i < points.len() ==> point_ok(#[trigger] points[i])
}

pub open spec fn shape_refusal(update: ShapeUpdate) -> Option<ErrorModel> {
    let amplitude = amplitude_of(update);
    let columns = lattice_side(update.control_columns);
    let rows = lattice_side(update.control_rows);
    if !amplitude.finite() || !amplitude.between(
        Number { bits: ZERO },
        Number { bits: MAX_AMPLITUDE },
    ) {
        Some(failure("shape amplitude must be finite and between 0 and 10"@))
    } else if update.kind == ControlSurfaceKind::Automatic {
        None
    } else if !(MIN_LATTICE <= columns <= MAX_LATTICE && MIN_LATTICE <= rows <= MAX_LATTICE) {
        Some(failure("custom surfaces require 2..8 control columns and rows"@))
    } else if points_of(update).len() != columns * rows {
        Some(
            failure(
                "custom control_points length must equal control_columns * control_rows"@,
            ),
        )
    } else if !points_ok(points_of(update)) {
        Some(
            failure(
                "custom control-point coordinates must be finite and between -10000 and 10000"@,
            ),
        )
    } else {
        None
    }
}

/// The camera update that brings up a custom surface: one that goes to
/// perspective, where the active mode shows no such surface.
pub open spec fn shape_view(kind: ControlSurfaceKind, state: ControlState) -> Option<ViewRequest> {
    if kind == ControlSurfaceKind::Custom && (!state.active_mode.spatial() || state.active_mode
        == TerminalPresentationMode::Mobius3d) {
        Some(
            ViewRequest {
                slot: state.active_slot,
                activate: false,
                mode: Some(TerminalPresentationMode::Perspective3d),
                zoom: None,
                fov_degrees: None,
                translation: OptionalVec3 { x: None, y: None, z: None },
                rotation_degrees: OptionalVec3 { x: None, y: None, z: None },
            },
        )
    } else {
        None
    }
}

/// Whether a plan sets the surface that an update gives: a custom one with its
/// lattice, or that of the presentation mode without one.
pub open spec fn plans_shape(plan: ControlPlan, update: ShapeUpdate, state: ControlState) -> bool {
    plan matches ControlPlan::SetShape { shape, camera } && {
        &&& shape.amplitude == amplitude_of(update)
        &&& shape.wf()
        &&& camera == shape_view(update.kind, state)
        &&& match update.kind {
            ControlSurfaceKind::Automatic => shape.kind == TerminalSurfaceKind::ModeDefault,
            ControlSurfaceKind::Custom => {
                &&& shape.kind == TerminalSurfaceKind::Custom
                &&& shape.control_columns == lattice_side(update.control_columns)
                &&& shape.control_rows == lattice_side(update.control_rows)
                &&& shape.control_points@ == points_of(update)
            },
        }
    }
}

fn is_coordinate(value: Number) -> (r: bool)
    ensures
        r == coordinate(value),
{
    value.is_finite() && value.within(
        Number { bits: MIN_COORDINATE },
        Number { bits: MAX_COORDINATE },
    )
}

fn are_points_ok(points: &Vec<[Number; 3]>) -> (r: bool)
    ensures
        r == points_ok(points@),
{
    let mut i: usize = 0;
    while i < points.len()
        invariant
            i <= points@.len(),
            forall|k: int| 0 <= k < i ==> point_ok(#[trigger] points@[k]),
        decreases points@.len() - i,
    {
        let point = points[i];
        if !(is_coordinate(point[0]) && is_coordinate(point[1]) && is_coordinate(point[2])) {
            assert(!point_ok(points@[i as int]));
            return false;
        }
        i = i + 1;
    }
    true
}

fn decide_shape(update: ShapeUpdate, state: &ControlState) -> (r: Result<ControlPlan, ControlError>)
    ensures
        match shape_refusal(update) {
            Some(error) => r matches Err(said) && said@ == error,
            None => r matches Ok(plan) && plans_shape(plan, update, *state),
        },
{
    let amplitude = match update.amplitude {
        Some(amplitude) => amplitude,
        None => Number { bits: ONE },
    };
    if !amplitude.is_finite() || !amplitude.within(
        Number { bits: ZERO },
        Number { bits: MAX_AMPLITUDE },
    ) {
        return failed("shape amplitude must be finite and between 0 and 10");
    }
    if update.kind == ControlSurfaceKind::Automatic {
        return Ok(
            ControlPlan::SetShape {
                shape: TerminalSurfaceShape {
                    kind: TerminalSurfaceKind::ModeDefault,
                    amplitude,
                    control_columns: 0,
                    control_rows: 0,
                    control_points: Vec::new(),
                },
                camera: None,
            },
        );
    }
    let columns: u8 = match update.control_columns {
        Some(columns) => columns,
        None => 0,
    };
    let rows: u8 = match update.control_rows {
        Some(rows) => rows,
        None => 0,
    };
    if columns < MIN_LATTICE || columns > MAX_LATTICE || rows < MIN_LATTICE || rows > MAX_LATTICE {
        return failed("custom surfaces require 2..8 control columns and rows");
    }
    let points = match update.control_points {
        Some(points) => points,
        None => Vec::new(),
    };
    assert(points@ =~= points_of(update));
    assert(columns * rows <= 8 * 8) by (nonlinear_arith)
        requires
            columns <= 8,
            rows <= 8,
    ;
    assert(0 <= columns * rows) by (nonlinear_arith);
    if points.len() != columns as usize * rows as usize {
        return failed("custom control_points length must equal control_columns * control_rows");
    }
    if !are_points_ok(&points) {
        return failed(
            "custom control-point coordinates must be finite and between -10000 and 10000",
        );
    }
    let camera = if !state.active_mode.is_3d() || state.active_mode
        == TerminalPresentationMode::Mobius3d {
        Some(
            ViewRequest {
                slot: state.active_slot,
                activate: false,
                mode: Some(TerminalPresentationMode::Perspective3d),
                zoom: None,
                fov_degrees: None,
                translation: OptionalVec3::default(),
                rotation_degrees: OptionalVec3::default(),
            },
        )
    } else {
        None
    };
    Ok(
        ControlPlan::SetShape {
            shape: TerminalSurfaceShape {
                kind: TerminalSurfaceKind::Custom,
                amplitude,
                control_columns: columns,
                control_rows: rows,
                control_points: points,
            },
            camera,
        },
    )
}

/// Why a command is refused, if it is.
pub open spec fn command_refusal(command: ControlCommand, state: ControlState) -> Option<ErrorModel> {
    match command {
        ControlCommand::GetState | ControlCommand::Close => None,
        ControlCommand::Snapshot(request) => if request.rect matches Some(rect) && (rect.rows == 0
            || rect.columns == 0) {
            Some(failure("snapshot rectangle dimensions must be non-zero"@))
        } else {
            None
        },
        ControlCommand::WriteText(request) => text_refusal(request, state),
        ControlCommand::PressKeys(request) => keys_refusal(request, state),
        ControlCommand::Resize(request) => size_refusal(request.columns, request.rows),
        ControlCommand::SetView(update) => view_refusal(update, state),
        ControlCommand::SetCursor(update) => cursor_refusal(update),
        ControlCommand::SetWindow(update) => window_refusal(update, state),
        ControlCommand::SetTerminal(update) => terminal_refusal(update, state),
        ControlCommand::SetShape(update) => shape_refusal(update),
    }
}

/// Whether a plan is what a command asks for.
pub open spec fn plans(plan: ControlPlan, command: ControlCommand, state: ControlState) -> bool {
    match command {
        ControlCommand::GetState => plan == ControlPlan::ReportState,
        ControlCommand::Snapshot(request) => plan == ControlPlan::TakeSnapshot(request),
        ControlCommand::WriteText(request) => plans_text(plan, request, state),
        ControlCommand::PressKeys(request) => plan matches ControlPlan::PressKeys {
            bytes,
            keys_pressed,
        } && keys_input(request.keys@) == Ok::<Seq<u8>, ErrorModel>(bytes@) && keys_pressed
            == request.keys@.len(),
        ControlCommand::Resize(request) => plan == (ControlPlan::Resize {
            columns: request.columns,
            rows: request.rows,
        }),
        ControlCommand::Close => plan == ControlPlan::Close,
        ControlCommand::SetView(update) => plan == (ControlPlan::SetView {
            warp: update.warp,
            view: view_request(update, state),
        }),
        ControlCommand::SetCursor(update) => plan == ControlPlan::SetCursor(
            state.cursor.updated(update),
        ),
        ControlCommand::SetWindow(update) => state.window matches Some(window) && plans_window(
            plan,
            update,
            window,
        ),
        ControlCommand::SetTerminal(update) => plan == (ControlPlan::SetTerminal {
            columns: cells(update.columns, state.columns),
            rows: cells(update.rows, state.rows),
            font_size: update.font_size,
        }),
        ControlCommand::SetShape(update) => plans_shape(plan, update, state),
    }
}

/// Decides what a command does.
pub fn apply_command(command: ControlCommand, state: &ControlState) -> (r: Result<
    ControlPlan,
    ControlError,
>)
    ensures
        match command_refusal(command, *state) {
            Some(error) => r matches Err(said) && said@ == error,
            None => r matches Ok(plan) && plans(plan, command, *state),
        },
{
    match command {
        ControlCommand::GetState => Ok(ControlPlan::ReportState),
        ControlCommand::Snapshot(request) => {
            if let Some(rect) = request.rect {
                if rect.rows == 0 || rect.columns == 0 {
                    return failed("snapshot rectangle dimensions must be non-zero");
                }
            }
            Ok(ControlPlan::TakeSnapshot(request))
        },
        ControlCommand::WriteText(request) => decide_text(request, state),
        ControlCommand::PressKeys(request) => decide_keys(request, state),
        ControlCommand::Resize(request) => decide_resize(request),
        ControlCommand::Close => Ok(ControlPlan::Close),
        ControlCommand::SetView(update) => decide_view(update, state),
        ControlCommand::SetCursor(update) => decide_cursor(update, state),
        ControlCommand::SetWindow(update) => decide_window(update, state),
        ControlCommand::SetTerminal(update) => decide_terminal(update, state),
        ControlCommand::SetShape(update) => decide_shape(update, state),
    }
}

/// Nothing is ever written to an application that does not run.
pub proof fn law_no_input_without_a_child(command: ControlCommand, state: ControlState)
    requires
        !state.connected,
        command is WriteText || command is PressKeys,
    ensures
        command_refusal(command, state) matches Some(error) && error.code
            == "terminal_disconnected"@,
{
}

/// What a command writes to an application is bounded: 64 KiB, and the paste
/// brackets around text.
pub proof fn law_input_is_bounded(plan: ControlPlan, command: ControlCommand, state: ControlState)
    requires
        command_refusal(command, state) is None,
        plans(plan, command, state),
    ensures
        plan matches ControlPlan::PressKeys { bytes, .. } ==> bytes@.len() <= MAX_INPUT_BYTES,
        plan matches ControlPlan::WriteText { bytes, .. } ==> bytes@.len() <= MAX_INPUT_BYTES + 12,
{
    reveal_strlit("\x1b[200~");
    reveal_strlit("\x1b[201~");
    lemma_bracket_length("\x1b[200~"@);
    lemma_bracket_length("\x1b[201~"@);
    if let ControlCommand::PressKeys(request) = command {
        lemma_keys_input_bounded(request.keys@);
    }
}

proof fn lemma_bracket_length(text: Seq<char>)
    requires
        text.len() == 6,
        vstd::utf8::is_ascii_chars(text),
    ensures
        encode_utf8(text).len() == 6,
{
    vstd::utf8::is_ascii_chars_encode_utf8(text);
}

proof fn lemma_keys_input_bounded(keys: Seq<EncodedKey>)
    ensures
        keys_input(keys) matches Ok(input) ==> input.len() <= MAX_INPUT_BYTES,
    decreases keys.len(),
{
    if keys.len() > 0 {
        lemma_keys_input_bounded(keys.drop_last());
    }
}

/// The text that is written is the text that was asked for, and nothing is added
/// behind it but the closing paste bracket.
pub proof fn law_text_is_written_as_it_is(text: Seq<char>)
    ensures
        agent_text(text, false) == encode_utf8(text),
        agent_text(text, true) == encode_utf8("\x1b[200~"@) + agent_text(text, false)
            + encode_utf8("\x1b[201~"@),
{
}

} // verus!
