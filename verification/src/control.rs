//! The local control protocol: framing, authentication and the decisions about
//! commands.

use crate::number::Number;
use crate::scene::{TerminalPresentationMode, TerminalSurfaceKind};
use crate::snapshot::{number_text, push_number, SnapshotRequest};
use vstd::prelude::*;
use vstd::std_specs::convert::FromSpecImpl;

verus! {

/// The most bytes that a request may have, with the line break behind it.
pub const MAX_REQUEST_BYTES: usize = 131_072;
/// The most bytes that a response may have.
pub const MAX_RESPONSE_BYTES: usize = 4_194_304;
/// The most bytes of input that one command may write.
pub const MAX_INPUT_BYTES: usize = 65_536;
/// The most keys that one command may press.
pub const MAX_KEYS: usize = 256;
/// Version of the local control protocol.
pub const CONTROL_PROTOCOL_VERSION: u16 = 1;
/// The most cells that a terminal may have in a row or a column.
pub const MAX_TERMINAL_SIZE: u16 = 1000;
/// The smallest and the largest font size.
pub const MIN_FONT_SIZE: i32 = 4;
pub const MAX_FONT_SIZE: i32 = 256;
/// The smallest and the largest side of a window.
pub const MIN_WINDOW_SIZE: u32 = 64;
pub const MAX_WINDOW_SIZE: u32 = 16_384;
/// The most bytes that a title may have.
pub const MAX_TITLE_BYTES: usize = 1024;
/// The smallest and the largest side of a lattice of control points.
pub const MIN_LATTICE: u8 = 2;
pub const MAX_LATTICE: u8 = 8;
/// The bits of 0.01 and 20, between which a zoom lies.
pub const MIN_ZOOM: u32 = 0x3c23_d70a;
pub const MAX_ZOOM: u32 = 0x41a0_0000;
/// The bits of 3 and 177, between which a field of view lies in degrees.
pub const MIN_FOV_DEGREES: u32 = 0x4040_0000;
pub const MAX_FOV_DEGREES: u32 = 0x4331_0000;
/// The bits of 0.001 and 100, between which the scale of a cursor lies.
pub const MIN_CURSOR_SCALE: u32 = 0x3a83_126f;
pub const MAX_CURSOR_SCALE: u32 = 0x42c8_0000;
/// The bits of 20, the largest brightness of a cursor.
pub const MAX_BRIGHTNESS: u32 = 0x41a0_0000;
/// The bits of -10 and 10, between which a jump height lies.
pub const MIN_JUMP_HEIGHT: u32 = 0xc120_0000;
pub const MAX_JUMP_HEIGHT: u32 = 0x4120_0000;
/// The bits of 10, the largest amplitude of a surface.
pub const MAX_AMPLITUDE: u32 = 0x4120_0000;
/// The bits of -10000 and 10000, between which a control point lies.
pub const MIN_COORDINATE: u32 = 0xc61c_4000;
pub const MAX_COORDINATE: u32 = 0x461c_4000;

/// Camera modes accepted by the local control protocol.
#[derive(Clone, Copy, Debug, PartialEq, Eq, Structural)]
pub enum ControlViewMode {
    Flat,
    Ortho,
    Perspective,
    Mobius,
}

impl From<ControlViewMode> for TerminalPresentationMode {
    fn from(value: ControlViewMode) -> (r: Self) {
        match value {
            ControlViewMode::Flat => TerminalPresentationMode::Flat2d,
            ControlViewMode::Ortho => TerminalPresentationMode::Plane3d,
            ControlViewMode::Perspective => TerminalPresentationMode::Perspective3d,
            ControlViewMode::Mobius => TerminalPresentationMode::Mobius3d,
        }
    }
}

impl FromSpecImpl<ControlViewMode> for TerminalPresentationMode {
    open spec fn obeys_from_spec() -> bool {
        true
    }

    open spec fn from_spec(value: ControlViewMode) -> Self {
        presentation_of(value)
    }
}

/// The presentation mode that a camera mode names.
pub open spec fn presentation_of(mode: ControlViewMode) -> TerminalPresentationMode {
    match mode {
        ControlViewMode::Flat => TerminalPresentationMode::Flat2d,
        ControlViewMode::Ortho => TerminalPresentationMode::Plane3d,
        ControlViewMode::Perspective => TerminalPresentationMode::Perspective3d,
        ControlViewMode::Mobius => TerminalPresentationMode::Mobius3d,
    }
}

impl From<TerminalPresentationMode> for ControlViewMode {
    fn from(value: TerminalPresentationMode) -> (r: Self) {
        match value {
            TerminalPresentationMode::Flat2d => ControlViewMode::Flat,
            TerminalPresentationMode::Plane3d => ControlViewMode::Ortho,
            TerminalPresentationMode::Perspective3d => ControlViewMode::Perspective,
            TerminalPresentationMode::Mobius3d => ControlViewMode::Mobius,
        }
    }
}

impl FromSpecImpl<TerminalPresentationMode> for ControlViewMode {
    open spec fn obeys_from_spec() -> bool {
        true
    }

    open spec fn from_spec(value: TerminalPresentationMode) -> Self {
        camera_mode_of(value)
    }
}

/// The name of a presentation mode.
pub open spec fn camera_mode_of(mode: TerminalPresentationMode) -> ControlViewMode {
    match mode {
        TerminalPresentationMode::Flat2d => ControlViewMode::Flat,
        TerminalPresentationMode::Plane3d => ControlViewMode::Ortho,
        TerminalPresentationMode::Perspective3d => ControlViewMode::Perspective,
        TerminalPresentationMode::Mobius3d => ControlViewMode::Mobius,
    }
}

/// Camera modes and presentation modes name the same things.
pub proof fn law_mode_names_round_trip(mode: TerminalPresentationMode, name: ControlViewMode)
    ensures
        presentation_of(camera_mode_of(mode)) == mode,
        camera_mode_of(presentation_of(name)) == name,
{
}

/// A partial, frame-safe camera update.
#[derive(Debug)]
pub struct ViewUpdate {
    pub slot: Option<u8>,
    pub activate: Option<bool>,
    pub mode: Option<ControlViewMode>,
    pub warp: Option<Number>,
    pub yaw_degrees: Option<Number>,
    pub pitch_degrees: Option<Number>,
    pub roll_degrees: Option<Number>,
    pub zoom: Option<Number>,
    pub fov_degrees: Option<Number>,
    pub x: Option<Number>,
    pub y: Option<Number>,
    pub z: Option<Number>,
}

/// Live cursor model and animation settings.
#[derive(Debug)]
pub struct CursorUpdate {
    pub visible: Option<bool>,
    pub scale: Option<Number>,
    pub x_offset: Option<Number>,
    pub depth: Option<Number>,
    pub brightness: Option<Number>,
    pub spin_speed: Option<Number>,
    pub jump_speed: Option<Number>,
    pub jump_height: Option<Number>,
}

/// Live native-window settings.
#[derive(Debug)]
pub struct WindowUpdate {
    pub width: Option<u32>,
    pub height: Option<u32>,
    pub x: Option<i32>,
    pub y: Option<i32>,
    pub title: Option<String>,
    pub background_rgb: Option<[u8; 3]>,
}

/// Live terminal grid and typography settings.
#[derive(Clone, Copy, Debug, PartialEq, Eq, Structural)]
pub struct TerminalUpdate {
    pub columns: Option<u16>,
    pub rows: Option<u16>,
    pub font_size: Option<i32>,
}

/// Parametric terminal-surface families.
#[derive(Clone, Copy, Debug, PartialEq, Eq, Structural)]
pub enum ControlSurfaceKind {
    Automatic,
    Custom,
}

impl From<TerminalSurfaceKind> for ControlSurfaceKind {
    fn from(value: TerminalSurfaceKind) -> (r: Self) {
        match value {
            TerminalSurfaceKind::ModeDefault => ControlSurfaceKind::Automatic,
            TerminalSurfaceKind::Custom => ControlSurfaceKind::Custom,
        }
    }
}

impl FromSpecImpl<TerminalSurfaceKind> for ControlSurfaceKind {
    open spec fn obeys_from_spec() -> bool {
        true
    }

    open spec fn from_spec(value: TerminalSurfaceKind) -> Self {
        match value {
            TerminalSurfaceKind::ModeDefault => ControlSurfaceKind::Automatic,
            TerminalSurfaceKind::Custom => ControlSurfaceKind::Custom,
        }
    }
}

/// A complete surface definition, with a lattice for custom surfaces.
#[derive(Debug)]
pub struct ShapeUpdate {
    pub kind: ControlSurfaceKind,
    pub amplitude: Option<Number>,
    pub control_columns: Option<u8>,
    pub control_rows: Option<u8>,
    pub control_points: Option<Vec<[Number; 3]>>,
}

#[derive(Debug)]
pub struct WriteTextRequest {
    pub text: String,
    pub paste: bool,
}

/// A key press as the terminal encodes it, or why it cannot.
#[derive(Debug)]
pub enum EncodedKey {
    Bytes(Vec<u8>),
    Unknown(String),
}

#[derive(Debug)]
pub struct PressKeysRequest {
    pub keys: Vec<EncodedKey>,
}

#[derive(Clone, Copy, Debug, PartialEq, Eq, Structural)]
pub struct ResizeRequest {
    pub columns: u16,
    pub rows: u16,
}

/// Commands sent across the control socket.
#[derive(Debug)]
pub enum ControlCommand {
    GetState,
    Snapshot(SnapshotRequest),
    WriteText(WriteTextRequest),
    PressKeys(PressKeysRequest),
    Resize(ResizeRequest),
    Close,
    SetView(ViewUpdate),
    SetCursor(CursorUpdate),
    SetWindow(WindowUpdate),
    SetTerminal(TerminalUpdate),
    SetShape(ShapeUpdate),
}

/// Structured local-control protocol error.
#[derive(Debug)]
pub struct ControlError {
    /// Stable machine-readable error code.
    pub code: String,
    /// Human-readable error message.
    pub message: String,
}

/// What an error says: its code and its message.
pub struct ErrorModel {
    pub code: Seq<char>,
    pub message: Seq<char>,
}

impl View for ControlError {
    type V = ErrorModel;

    open spec fn view(&self) -> ErrorModel {
        ErrorModel { code: self.code@, message: self.message@ }
    }
}

impl ControlError {
    pub fn new(code: &str, message: &str) -> (r: Self)
        ensures
            r@ == (ErrorModel { code: code@, message: message@ }),
    {
        ControlError { code: code.to_string(), message: message.to_string() }
    }
}

/// Response from the control endpoint, with a result of a type `V`.
#[derive(Debug)]
pub struct ControlResponse<V> {
    /// Local protocol version.
    pub protocol_version: u16,
    /// Echoed request ID.
    pub request_id: u64,
    /// Successful command result.
    pub result: Option<V>,
    /// Structured command or protocol error.
    pub error: Option<ControlError>,
}

/// Whether a response is an error and nothing else.
pub open spec fn is_error<V>(response: ControlResponse<V>, request_id: u64, error: ErrorModel) -> bool {
    &&& response.protocol_version == CONTROL_PROTOCOL_VERSION
    &&& response.request_id == request_id
    &&& response.result is None
    &&& response.error matches Some(said) && said@ == error
}

impl<V> ControlResponse<V> {
    /// A result.
    pub fn data(value: V) -> (r: Self)
        ensures
            r == (ControlResponse {
                protocol_version: CONTROL_PROTOCOL_VERSION,
                request_id: 0,
                result: Some(value),
                error: None,
            }),
    {
        ControlResponse {
            protocol_version: CONTROL_PROTOCOL_VERSION,
            request_id: 0,
            result: Some(value),
            error: None,
        }
    }

    /// A command that failed.
    pub fn error(message: &str) -> (r: Self)
        ensures
            is_error(r, 0, ErrorModel { code: "command_failed"@, message: message@ }),
    {
        ControlResponse::coded_error("command_failed", message)
    }

    /// An error of its own kind.
    pub fn coded_error(code: &str, message: &str) -> (r: Self)
        ensures
            is_error(r, 0, ErrorModel { code: code@, message: message@ }),
    {
        ControlResponse {
            protocol_version: CONTROL_PROTOCOL_VERSION,
            request_id: 0,
            result: None,
            error: Some(ControlError::new(code, message)),
        }
    }

    /// The same response to a request.
    pub fn for_request(self, request_id: u64) -> (r: Self)
        ensures
            r == (ControlResponse { request_id, ..self }),
    {
        ControlResponse {
            protocol_version: self.protocol_version,
            request_id,
            result: self.result,
            error: self.error,
        }
    }
}

/// A request as it is sent, with a command of a type `C`.
#[derive(Debug)]
pub struct WireRequest<C> {
    pub protocol_version: u16,
    pub request_id: u64,
    pub token: String,
    pub command: C,
}

/// What a request of another protocol version is told.
pub open spec fn version_message(version: u16) -> Seq<char> {
    "protocol version "@ + number_text(version as nat) + " is unsupported; expected "@ + number_text(
        CONTROL_PROTOCOL_VERSION as nat,
    )
}

/// Why a request is refused, if it is.
pub open spec fn refusal(version: u16, token: Seq<char>, expected: Seq<char>) -> Option<ErrorModel> {
    if version != CONTROL_PROTOCOL_VERSION {
        Some(
            ErrorModel {
                code: "unsupported_protocol_version"@,
                message: version_message(version),
            },
        )
    } else if token != expected {
        Some(
            ErrorModel { code: "authentication_failed"@, message: "authentication failed"@ },
        )
    } else {
        None
    }
}

/// Lets a request through that is of this protocol version and knows the token.
/// Any other is answered with an error that echoes its ID.
pub fn validate_wire_request<C, V>(request: WireRequest<C>, token: &str) -> (r: Result<
    WireRequest<C>,
    ControlResponse<V>,
>)
    ensures
        match refusal(request.protocol_version, request.token@, token@) {
            None => r == Ok::<WireRequest<C>, ControlResponse<V>>(request),
            Some(error) => r matches Err(response) && is_error(response, request.request_id, error),
        },
{
    if request.protocol_version != CONTROL_PROTOCOL_VERSION {
        let mut message = "protocol version ".to_string();
        push_number(&mut message, request.protocol_version as u64);
        message.append(" is unsupported; expected ");
        push_number(&mut message, CONTROL_PROTOCOL_VERSION as u64);
        return Err(
            ControlResponse::coded_error("unsupported_protocol_version", message.as_str()).for_request(
                request.request_id,
            ),
        );
    }
    proof {
        vstd::utf8::encode_utf8_decode_utf8(request.token@);
        vstd::utf8::encode_utf8_decode_utf8(token@);
    }
    if !constant_time_eq(request.token.as_str().as_bytes(), token.as_bytes()) {
        return Err(
            ControlResponse::coded_error("authentication_failed", "authentication failed").for_request(
                request.request_id,
            ),
        );
    }
    Ok(request)
}

/// Whether two byte strings are equal. Every byte is looked at, wherever they
/// differ.
pub fn constant_time_eq(left: &[u8], right: &[u8]) -> (r: bool)
    ensures
        r == (left@ == right@),
{
    if left.len() != right.len() {
        return false;
    }
    let mut diff: u8 = 0;
    let mut i: usize = 0;
    while i < left.len()
        invariant
            i <= left@.len() == right@.len(),
            diff == 0 <==> forall|k: int| 0 <= k < i ==> left@[k] == right@[k],
        decreases left@.len() - i,
    {
        let a: u8 = left[i];
        let b: u8 = right[i];
        assert((diff | (a ^ b)) == 0 <==> diff == 0 && a == b) by (bit_vector);
        diff = diff | (a ^ b);
        i = i + 1;
    }
    proof {
        if diff == 0 {
            assert(left@ =~= right@);
        }
    }
    diff == 0
}

/// Why bytes are no request.
#[derive(Clone, Copy, Debug, PartialEq, Eq, Structural)]
pub enum FrameError {
    /// Nothing was sent.
    Empty,
    /// More was sent than a request may have.
    TooLarge,
    /// No line break was sent.
    Unterminated,
}

pub open spec fn framed(bytes: Seq<u8>) -> Result<Seq<u8>, FrameError> {
    if bytes.len() == 0 {
        Err(FrameError::Empty)
    } else if bytes.len() > MAX_REQUEST_BYTES {
        Err(FrameError::TooLarge)
    } else if bytes.last() != 10 {
        Err(FrameError::Unterminated)
    } else {
        Ok(bytes.drop_last())
    }
}

/// The body of a request that was read up to a line break or one byte past the
/// limit.
pub fn frame_request(bytes: &[u8]) -> (r: Result<&[u8], FrameError>)
    ensures
        match r {
            Ok(body) => framed(bytes@) == Ok::<Seq<u8>, FrameError>(body@),
            Err(error) => framed(bytes@) == Err::<Seq<u8>, FrameError>(error),
        },
{
    if bytes.len() == 0 {
        return Err(FrameError::Empty);
    }
    if bytes.len() > MAX_REQUEST_BYTES {
        return Err(FrameError::TooLarge);
    }
    if bytes[bytes.len() - 1] != 10 {
        return Err(FrameError::Unterminated);
    }
    let body = vstd::slice::slice_subrange(bytes, 0, bytes.len() - 1);
    assert(body@ =~= bytes@.drop_last());
    Ok(body)
}

/// Whether an encoded response may be sent.
pub fn response_fits(len: usize) -> (r: bool)
    ensures
        r == (len <= MAX_RESPONSE_BYTES),
{
    len <= MAX_RESPONSE_BYTES
}

/// Why a response is not what a client waits for.
#[derive(Clone, Copy, Debug, PartialEq, Eq, Structural)]
pub enum ResponseError {
    /// The connection was closed without a response.
    Closed,
    /// More was sent than a response may have.
    TooLarge,
    /// The response is of another protocol version.
    Version,
    /// The response is to another request.
    Mismatched,
}

/// Checks the length of a response line.
pub fn check_response_line(len: usize) -> (r: Result<(), ResponseError>)
    ensures
        r == (if len == 0 {
            Err(ResponseError::Closed)
        } else if len > MAX_RESPONSE_BYTES {
            Err(ResponseError::TooLarge)
        } else {
            Ok(())
        }),
{
    if len == 0 {
        Err(ResponseError::Closed)
    } else if len > MAX_RESPONSE_BYTES {
        Err(ResponseError::TooLarge)
    } else {
        Ok(())
    }
}

/// Checks that a response answers a request.
pub fn check_response<V>(response: &ControlResponse<V>, request_id: u64) -> (r: Result<(), ResponseError>)
    ensures
        r == (if response.protocol_version != CONTROL_PROTOCOL_VERSION {
            Err(ResponseError::Version)
        } else if response.request_id != request_id {
            Err(ResponseError::Mismatched)
        } else {
            Ok(())
        }),
{
    if response.protocol_version != CONTROL_PROTOCOL_VERSION {
        Err(ResponseError::Version)
    } else if response.request_id != request_id {
        Err(ResponseError::Mismatched)
    } else {
        Ok(())
    }
}

/// A hexadecimal digit.
pub open spec fn hex_char(n: int) -> char {
    if n < 10 {
        (48 + n) as char
    } else {
        (87 + n) as char
    }
}

/// Bytes in hexadecimal, two digits each.
pub open spec fn hex_text(bytes: Seq<u8>) -> Seq<char>
    decreases bytes.len(),
{
    if bytes.len() == 0 {
        Seq::empty()
    } else {
        hex_text(bytes.drop_last()).push(hex_char(bytes.last() as int / 16)).push(
            hex_char(bytes.last() as int % 16),
        )
    }
}

fn write_hex_digit(n: u8) -> (r: char)
    requires
        n < 16,
    ensures
        r == hex_char(n as int),
{
    if n < 10 {
        (48 + n) as char
    } else {
        (87 + n) as char
    }
}

/// A session token made of bytes.
pub fn token_of(bytes: &[u8]) -> (r: String)
    ensures
        r@ == hex_text(bytes@),
{
    let mut r = String::new();
    let mut i: usize = 0;
    assert(bytes@.take(0) =~= Seq::<u8>::empty());
    while i < bytes.len()
        invariant
            i <= bytes@.len(),
            r@ == hex_text(bytes@.take(i as int)),
        decreases bytes@.len() - i,
    {
        let b: u8 = bytes[i];
        assert(bytes@.take(i + 1).drop_last() =~= bytes@.take(i as int));
        r.push(write_hex_digit(b / 16));
        r.push(write_hex_digit(b % 16));
        i = i + 1;
    }
    assert(bytes@.take(i as int) =~= bytes@);
    r
}

/// Asks `getrandom::fill` for 32 bytes; it fails where the system has none to
/// give. What the bytes are is up to chance.
#[verifier::external_body]
fn random_bytes() -> (r: Option<[u8; 32]>) {
    let mut bytes = [0u8; 32];
    getrandom::fill(&mut bytes).ok().map(|()| bytes)
}

proof fn lemma_hex_text_len(bytes: Seq<u8>)
    ensures
        hex_text(bytes).len() == 2 * bytes.len(),
    decreases bytes.len(),
{
    if bytes.len() > 0 {
        lemma_hex_text_len(bytes.drop_last());
    }
}

/// A new session token: 32 random bytes in hexadecimal, where the system has
/// them to give.
pub fn random_token() -> (r: Option<String>)
    ensures
        r matches Some(token) ==> token@.len() == 64 && exists|bytes: Seq<u8>|
            bytes.len() == 32 && token@ == #[trigger] hex_text(bytes),
{
    match random_bytes() {
        Some(bytes) => {
            proof {
                lemma_hex_text_len(bytes@);
            }
            Some(token_of(bytes.as_slice()))
        },
        None => None,
    }
}

/// Different bytes make different tokens.
pub proof fn law_tokens_tell_bytes_apart(a: Seq<u8>, b: Seq<u8>)
    requires
        hex_text(a) == hex_text(b),
    ensures
        a == b,
    decreases a.len(),
{
    lemma_hex_text_len(a);
    lemma_hex_text_len(b);
    if a.len() > 0 {
        let x = hex_text(a);
        let y = hex_text(b);
        let n = x.len();
        assert(x[n - 1] == hex_char(a.last() as int % 16));
        assert(y[n - 1] == hex_char(b.last() as int % 16));
        assert(x[n - 2] == hex_char(a.last() as int / 16));
        assert(y[n - 2] == hex_char(b.last() as int / 16));
        lemma_hex_char(a.last() as int % 16, b.last() as int % 16);
        lemma_hex_char(a.last() as int / 16, b.last() as int / 16);
        assert(a.last() == b.last());
        assert(hex_text(a.drop_last()) =~= x.take(n - 2));
        assert(hex_text(b.drop_last()) =~= y.take(n - 2));
        law_tokens_tell_bytes_apart(a.drop_last(), b.drop_last());
        assert(a =~= a.drop_last().push(a.last()));
        assert(b =~= b.drop_last().push(b.last()));
    } else {
        assert(a =~= b);
    }
}

proof fn lemma_hex_char(a: int, b: int)
    requires
        0 <= a < 16,
        0 <= b < 16,
        hex_char(a) == hex_char(b),
    ensures
        a == b,
{
    assert((48 + a) as char as int == 48 + a);
    assert((48 + b) as char as int == 48 + b);
    assert((87 + a) as char as int == 87 + a);
    assert((87 + b) as char as int == 87 + b);
}

} // verus!
