//! The control protocol and its commands.

use ratty::commands::{apply_command, ControlPlan, ControlState, CursorSettings, WindowState};
use ratty::control::{
    check_response, check_response_line, constant_time_eq, frame_request, random_token,
    response_fits, token_of, validate_wire_request, ControlCommand, ControlResponse,
    ControlSurfaceKind, ControlViewMode, CursorUpdate, EncodedKey, FrameError, PressKeysRequest,
    ResizeRequest, ResponseError, ShapeUpdate, TerminalUpdate, ViewUpdate, WindowUpdate,
    WireRequest, WriteTextRequest, CONTROL_PROTOCOL_VERSION, MAX_REQUEST_BYTES, MAX_RESPONSE_BYTES,
};
use ratty::number::Number;
use ratty::scene::{TerminalPresentationMode, TerminalSurfaceKind};
use ratty::snapshot::{SnapshotRect, SnapshotRequest};

fn n(value: f32) -> Number {
    Number { bits: value.to_bits() }
}

fn request(protocol_version: u16, request_id: u64, token: &str) -> WireRequest<ControlCommand> {
    WireRequest {
        protocol_version,
        request_id,
        token: token.to_string(),
        command: ControlCommand::GetState,
    }
}

#[test]
fn token_comparison_rejects_wrong_values() {
    assert!(constant_time_eq(b"rat", b"rat"));
    assert!(!constant_time_eq(b"rat", b"bat"));
    assert!(!constant_time_eq(b"rat", b"rats"));
}

#[test]
fn wire_authentication_and_version_errors_echo_request_ids() {
    let wrong_token = request(CONTROL_PROTOCOL_VERSION, 17, "wrong");
    let response: ControlResponse<()> = validate_wire_request(wrong_token, "right")
        .expect_err("an incorrect token must be rejected");
    assert_eq!(response.request_id, 17);
    assert_eq!(
        response.error.expect("authentication failure must include an error").code,
        "authentication_failed"
    );

    let wrong_version = request(CONTROL_PROTOCOL_VERSION + 1, 23, "right");
    let response: ControlResponse<()> = validate_wire_request(wrong_version, "right")
        .expect_err("an unsupported protocol version must be rejected");
    assert_eq!(response.request_id, 23);
    let error = response.error.expect("version failure must include an error");
    assert_eq!(error.code, "unsupported_protocol_version");
    assert_eq!(error.message, "protocol version 2 is unsupported; expected 1");

    let accepted: Result<_, ControlResponse<()>> =
        validate_wire_request(request(CONTROL_PROTOCOL_VERSION, 5, "right"), "right");
    assert_eq!(accepted.expect("a good request must pass").request_id, 5);
}

#[test]
fn wire_reader_requires_a_bounded_newline_delimited_request() {
    let mut bytes =
        br#"{"protocol_version":1,"request_id":31,"token":"secret","command":"get_state","parameters":{}}"#
            .to_vec();
    assert_eq!(
        frame_request(&bytes).expect_err("a request without its delimiter must fail"),
        FrameError::Unterminated
    );

    bytes.push(b'\n');
    let body = frame_request(&bytes).expect("delimited request must parse");
    let parsed: serde_json::Value = serde_json::from_slice(body).expect("request must parse");
    assert_eq!(parsed["request_id"].as_u64(), Some(31));

    let oversized = vec![b' '; MAX_REQUEST_BYTES + 1];
    assert_eq!(
        frame_request(&oversized).expect_err("oversized request must fail"),
        FrameError::TooLarge
    );
    assert_eq!(frame_request(&[]).expect_err("nothing is no request"), FrameError::Empty);
}

#[test]
fn tokens_are_hexadecimal() {
    assert_eq!(token_of(&[0x00, 0x9f, 0xa0, 0xff]), "009fa0ff");
    let first = random_token().expect("the system has random bytes");
    let second = random_token().expect("the system has random bytes");
    assert_eq!(first.len(), 64);
    assert!(first.chars().all(|c| c.is_ascii_hexdigit() && !c.is_ascii_uppercase()));
    assert_ne!(first, second);
    assert_ne!(first, "0".repeat(64));
}

#[test]
fn responses_are_checked() {
    assert!(response_fits(MAX_RESPONSE_BYTES));
    assert!(!response_fits(MAX_RESPONSE_BYTES + 1));
    assert_eq!(check_response_line(0), Err(ResponseError::Closed));
    assert_eq!(check_response_line(MAX_RESPONSE_BYTES + 1), Err(ResponseError::TooLarge));
    assert_eq!(check_response_line(10), Ok(()));

    let response = ControlResponse::data(3u8).for_request(9);
    assert_eq!(check_response(&response, 9), Ok(()));
    assert_eq!(check_response(&response, 8), Err(ResponseError::Mismatched));
    let other = ControlResponse { protocol_version: 7, ..response };
    assert_eq!(check_response(&other, 9), Err(ResponseError::Version));
    let failed: ControlResponse<u8> = ControlResponse::error("no");
    assert_eq!(failed.error.expect("an error").code, "command_failed");
}

fn state() -> ControlState {
    ControlState {
        connected: true,
        bracketed_paste: false,
        columns: 80,
        rows: 24,
        active_slot: 3,
        active_mode: TerminalPresentationMode::Flat2d,
        cursor: CursorSettings {
            visible: true,
            scale: n(6.0),
            x_offset: n(0.1),
            depth: n(18.0),
            brightness: n(1.0),
            spin_speed: n(1.4),
            jump_speed: n(2.2),
            jump_height: n(0.08),
        },
        window: Some(WindowState { width: 960, height: 620, position: None }),
    }
}

fn message(command: ControlCommand, state: &ControlState) -> String {
    apply_command(command, state).expect_err("the command must be refused").message
}

fn view() -> ViewUpdate {
    ViewUpdate {
        slot: None,
        activate: None,
        mode: None,
        warp: None,
        yaw_degrees: None,
        pitch_degrees: None,
        roll_degrees: None,
        zoom: None,
        fov_degrees: None,
        x: None,
        y: None,
        z: None,
    }
}

fn cursor() -> CursorUpdate {
    CursorUpdate {
        visible: None,
        scale: None,
        x_offset: None,
        depth: None,
        brightness: None,
        spin_speed: None,
        jump_speed: None,
        jump_height: None,
    }
}

fn window() -> WindowUpdate {
    WindowUpdate { width: None, height: None, x: None, y: None, title: None, background_rgb: None }
}

fn shape(columns: u8, rows: u8, points: usize) -> ShapeUpdate {
    ShapeUpdate {
        kind: ControlSurfaceKind::Custom,
        amplitude: None,
        control_columns: Some(columns),
        control_rows: Some(rows),
        control_points: Some(vec![[n(0.0), n(1.0), n(-1.0)]; points]),
    }
}

#[test]
fn plain_commands_are_planned() {
    assert!(matches!(
        apply_command(ControlCommand::GetState, &state()),
        Ok(ControlPlan::ReportState)
    ));
    assert!(matches!(apply_command(ControlCommand::Close, &state()), Ok(ControlPlan::Close)));
    let request = SnapshotRequest {
        rect: Some(SnapshotRect { row: 0, column: 0, rows: 0, columns: 4 }),
        include_styles: false,
        include_plain: true,
    };
    assert_eq!(
        message(ControlCommand::Snapshot(request), &state()),
        "snapshot rectangle dimensions must be non-zero"
    );
    assert!(matches!(
        apply_command(
            ControlCommand::Snapshot(SnapshotRequest { rect: None, ..request }),
            &state()
        ),
        Ok(ControlPlan::TakeSnapshot(_))
    ));
}

#[test]
fn text_is_written_and_bracketed_on_request() {
    let write = |paste: bool| {
        ControlCommand::WriteText(WriteTextRequest { text: "hé".to_string(), paste })
    };
    match apply_command(write(true), &state()) {
        Ok(ControlPlan::WriteText { bytes, text_bytes, paste_requested, bracketed }) => {
            assert_eq!(bytes, "hé".as_bytes());
            assert_eq!((text_bytes, paste_requested, bracketed), (3, true, false));
        }
        other => panic!("unexpected plan {other:?}"),
    }
    let bracketing = ControlState { bracketed_paste: true, ..state() };
    match apply_command(write(true), &bracketing) {
        Ok(ControlPlan::WriteText { bytes, bracketed, .. }) => {
            assert_eq!(bytes, "\x1b[200~hé\x1b[201~".as_bytes());
            assert!(bracketed);
        }
        other => panic!("unexpected plan {other:?}"),
    }
    match apply_command(write(false), &bracketing) {
        Ok(ControlPlan::WriteText { bytes, bracketed, .. }) => {
            assert_eq!(bytes, "hé".as_bytes());
            assert!(!bracketed);
        }
        other => panic!("unexpected plan {other:?}"),
    }
    let offline = ControlState { connected: false, ..state() };
    let error = apply_command(write(false), &offline).expect_err("nobody listens");
    assert_eq!(error.code, "terminal_disconnected");
    let long = WriteTextRequest { text: "x".repeat(65_537), paste: false };
    let error = apply_command(ControlCommand::WriteText(long), &state()).expect_err("too long");
    assert_eq!((error.code.as_str(), error.message.as_str()), (
        "input_too_large",
        "input exceeds 64 KiB"
    ));
}

#[test]
fn keys_are_gathered_and_bounded() {
    let press = |keys: Vec<EncodedKey>| ControlCommand::PressKeys(PressKeysRequest { keys });
    match apply_command(
        press(vec![EncodedKey::Bytes(b"\x1b[A".to_vec()), EncodedKey::Bytes(b"x".to_vec())]),
        &state(),
    ) {
        Ok(ControlPlan::PressKeys { bytes, keys_pressed }) => {
            assert_eq!(bytes, b"\x1b[Ax");
            assert_eq!(keys_pressed, 2);
        }
        other => panic!("unexpected plan {other:?}"),
    }
    let offline = ControlState { connected: false, ..state() };
    assert_eq!(
        apply_command(press(Vec::new()), &offline).expect_err("nobody listens").code,
        "terminal_disconnected"
    );
    assert_eq!(
        message(press(vec![EncodedKey::Unknown("unknown key".to_string())]), &state()),
        "unknown key"
    );
    let many = (0..257).map(|_| EncodedKey::Bytes(vec![b'x'])).collect();
    assert_eq!(message(press(many), &state()), "at most 256 keys may be pressed per request");
    let long = (0..2).map(|_| EncodedKey::Bytes(vec![b'x'; 40_000])).collect();
    assert_eq!(message(press(long), &state()), "encoded key input exceeds 64 KiB");
}

#[test]
fn sizes_are_bounded() {
    let resize =
        |columns: u16, rows: u16| ControlCommand::Resize(ResizeRequest { columns, rows });
    assert!(matches!(
        apply_command(resize(1000, 1), &state()),
        Ok(ControlPlan::Resize { columns: 1000, rows: 1 })
    ));
    for (columns, rows) in [(0, 1), (1, 0), (1001, 1), (1, 1001)] {
        assert_eq!(
            message(resize(columns, rows), &state()),
            "terminal columns and rows must be between 1 and 1000"
        );
    }
    let update = |columns, rows, font_size| {
        ControlCommand::SetTerminal(TerminalUpdate { columns, rows, font_size })
    };
    assert!(matches!(
        apply_command(update(None, Some(30), Some(12)), &state()),
        Ok(ControlPlan::SetTerminal { columns: 80, rows: 30, font_size: Some(12) })
    ));
    assert_eq!(
        message(update(Some(0), None, None), &state()),
        "terminal columns and rows must be between 1 and 1000"
    );
    for size in [3, 257, -4] {
        assert_eq!(
            message(update(None, None, Some(size)), &state()),
            "font size must be between 4 and 256"
        );
    }
}

#[test]
fn views_are_checked_in_order() {
    let refuse = |update: ViewUpdate| message(ControlCommand::SetView(update), &state());
    assert_eq!(
        refuse(ViewUpdate { slot: Some(10), x: Some(n(f32::NAN)), ..view() }),
        "camera slot must be between 0 and 9"
    );
    assert_eq!(
        refuse(ViewUpdate { x: Some(n(f32::NAN)), warp: Some(n(2.0)), ..view() }),
        "view values must be finite numbers"
    );
    assert_eq!(
        refuse(ViewUpdate { z: Some(n(f32::NEG_INFINITY)), ..view() }),
        "view values must be finite numbers"
    );
    for warp in [-0.01, 1.5] {
        assert_eq!(
            refuse(ViewUpdate { warp: Some(n(warp)), ..view() }),
            "warp must be between 0 and 1"
        );
    }
    for zoom in [0.0, 0.0099, 20.5, -1.0] {
        assert_eq!(
            refuse(ViewUpdate { zoom: Some(n(zoom)), ..view() }),
            "zoom must be between 0.01 and 20"
        );
    }
    for fov in [2.9, 177.5] {
        assert_eq!(
            refuse(ViewUpdate { fov_degrees: Some(n(fov)), ..view() }),
            "fov_degrees must be between 3 and 177"
        );
    }
    let accepted = apply_command(
        ControlCommand::SetView(ViewUpdate {
            mode: Some(ControlViewMode::Mobius),
            warp: Some(n(-0.0)),
            zoom: Some(n(0.01)),
            fov_degrees: Some(n(177.0)),
            yaw_degrees: Some(n(45.0)),
            ..view()
        }),
        &state(),
    );
    match accepted {
        Ok(ControlPlan::SetView { warp, view }) => {
            assert_eq!(warp.map(|warp| warp.bits), Some((-0.0f32).to_bits()));
            assert_eq!((view.slot, view.activate), (3, false));
            assert_eq!(view.mode, Some(TerminalPresentationMode::Mobius3d));
            assert_eq!(view.rotation_degrees.y.map(|yaw| yaw.bits), Some(45f32.to_bits()));
            assert!(view.rotation_degrees.x.is_none());
        }
        other => panic!("unexpected plan {other:?}"),
    }
    match apply_command(ControlCommand::SetView(ViewUpdate { slot: Some(7), ..view() }), &state()) {
        Ok(ControlPlan::SetView { view, .. }) => {
            assert_eq!((view.slot, view.activate), (7, true));
        }
        other => panic!("unexpected plan {other:?}"),
    }
}

#[test]
fn cursors_are_checked_and_merged() {
    let refuse = |update: CursorUpdate| message(ControlCommand::SetCursor(update), &state());
    assert_eq!(
        refuse(CursorUpdate { depth: Some(n(f32::INFINITY)), ..cursor() }),
        "cursor values must be finite numbers"
    );
    assert_eq!(
        refuse(CursorUpdate { scale: Some(n(0.0)), ..cursor() }),
        "cursor scale must be between 0.001 and 100"
    );
    assert_eq!(
        refuse(CursorUpdate { brightness: Some(n(20.5)), ..cursor() }),
        "cursor brightness must be between 0 and 20"
    );
    assert_eq!(
        refuse(CursorUpdate { jump_height: Some(n(-10.5)), ..cursor() }),
        "jump height must be between -10 and 10"
    );
    match apply_command(
        ControlCommand::SetCursor(CursorUpdate {
            visible: Some(false),
            jump_height: Some(n(-10.0)),
            ..cursor()
        }),
        &state(),
    ) {
        Ok(ControlPlan::SetCursor(settings)) => {
            assert!(!settings.visible);
            assert_eq!(settings.jump_height.bits, (-10f32).to_bits());
            assert_eq!(settings.scale.bits, 6f32.to_bits());
        }
        other => panic!("unexpected plan {other:?}"),
    }
}

#[test]
fn windows_are_checked_and_keep_what_is_not_given() {
    let refuse = |update: WindowUpdate, state: &ControlState| {
        message(ControlCommand::SetWindow(update), state)
    };
    assert_eq!(
        refuse(WindowUpdate { title: Some("x".repeat(1025)), ..window() }, &state()),
        "title exceeds 1024 bytes"
    );
    let no_window = ControlState { window: None, ..state() };
    assert_eq!(refuse(window(), &no_window), "primary window is not ready");
    assert_eq!(
        refuse(WindowUpdate { width: Some(63), ..window() }, &state()),
        "window width and height must be between 64 and 16384"
    );
    match apply_command(
        ControlCommand::SetWindow(WindowUpdate {
            height: Some(64),
            y: Some(-5),
            title: Some("x".repeat(1024)),
            background_rgb: Some([1, 2, 3]),
            ..window()
        }),
        &state(),
    ) {
        Ok(ControlPlan::SetWindow { size, position, title, background }) => {
            assert_eq!(size, Some((960, 64)));
            assert_eq!(position, Some((0, -5)));
            assert_eq!(title.map(|title| title.len()), Some(1024));
            assert_eq!(background, Some([1, 2, 3]));
        }
        other => panic!("unexpected plan {other:?}"),
    }
    match apply_command(ControlCommand::SetWindow(window()), &state()) {
        Ok(ControlPlan::SetWindow { size, position, title, background }) => {
            assert_eq!((size, position), (None, None));
            assert!(title.is_none() && background.is_none());
        }
        other => panic!("unexpected plan {other:?}"),
    }
}

#[test]
fn shapes_are_checked_and_brought_into_view() {
    let refuse = |update: ShapeUpdate| message(ControlCommand::SetShape(update), &state());
    for amplitude in [f32::NAN, -0.5, 10.5] {
        assert_eq!(
            refuse(ShapeUpdate { amplitude: Some(n(amplitude)), ..shape(2, 2, 4) }),
            "shape amplitude must be finite and between 0 and 10"
        );
    }
    for update in [shape(1, 2, 2), shape(2, 9, 18), ShapeUpdate {
        control_columns: None,
        ..shape(2, 2, 4)
    }] {
        assert_eq!(refuse(update), "custom surfaces require 2..8 control columns and rows");
    }
    assert_eq!(
        refuse(shape(2, 3, 5)),
        "custom control_points length must equal control_columns * control_rows"
    );
    let far = ShapeUpdate {
        control_points: Some(vec![[n(0.0), n(0.0), n(10_001.0)]; 4]),
        ..shape(2, 2, 4)
    };
    assert_eq!(
        refuse(far),
        "custom control-point coordinates must be finite and between -10000 and 10000"
    );
    match apply_command(ControlCommand::SetShape(shape(2, 3, 6)), &state()) {
        Ok(ControlPlan::SetShape { shape, camera }) => {
            assert_eq!(shape.kind, TerminalSurfaceKind::Custom);
            assert_eq!((shape.control_columns, shape.control_rows), (2, 3));
            assert_eq!(shape.control_points.len(), 6);
            assert_eq!(shape.amplitude.bits, 1f32.to_bits());
            let camera = camera.expect("a flat view does not show a surface");
            assert_eq!((camera.slot, camera.activate), (3, false));
            assert_eq!(camera.mode, Some(TerminalPresentationMode::Perspective3d));
        }
        other => panic!("unexpected plan {other:?}"),
    }
    let spatial = ControlState { active_mode: TerminalPresentationMode::Plane3d, ..state() };
    match apply_command(ControlCommand::SetShape(shape(2, 2, 4)), &spatial) {
        Ok(ControlPlan::SetShape { camera, .. }) => assert!(camera.is_none()),
        other => panic!("unexpected plan {other:?}"),
    }
    let automatic = ShapeUpdate { kind: ControlSurfaceKind::Automatic, ..shape(0, 0, 3) };
    match apply_command(ControlCommand::SetShape(automatic), &state()) {
        Ok(ControlPlan::SetShape { shape, camera }) => {
            assert_eq!(shape.kind, TerminalSurfaceKind::ModeDefault);
            assert!(shape.control_points.is_empty() && camera.is_none());
        }
        other => panic!("unexpected plan {other:?}"),
    }
}

#[test]
fn modes_keep_their_names() {
    for mode in [
        ControlViewMode::Flat,
        ControlViewMode::Ortho,
        ControlViewMode::Perspective,
        ControlViewMode::Mobius,
    ] {
        assert_eq!(ControlViewMode::from(TerminalPresentationMode::from(mode)), mode);
    }
    assert_eq!(
        ControlSurfaceKind::from(TerminalSurfaceKind::ModeDefault),
        ControlSurfaceKind::Automatic
    );
}

#[test]
fn numbers_compare_as_floats_do() {
    let values = [
        0.0f32,
        -0.0,
        1.0,
        -1.0,
        0.01,
        f32::MIN_POSITIVE,
        f32::MAX,
        f32::MIN,
        f32::INFINITY,
        f32::NEG_INFINITY,
        f32::NAN,
        f32::EPSILON,
        1.0e-45,
    ];
    for a in values {
        assert_eq!(n(a).is_finite(), a.is_finite());
        assert_eq!(n(a).is_nan(), a.is_nan());
        assert_eq!(n(a).is_positive(), a > 0.0);
        assert_eq!(n(a).is_negative(), a < 0.0);
        for b in values {
            assert_eq!(n(a).at_least(n(b)), a >= b);
            assert_eq!(n(a).same(n(b)), a == b);
            assert_eq!(n(a).within(n(b), n(1.0)), (b..=1.0).contains(&a));
        }
        if !a.is_nan() {
            assert_eq!(f32::from_bits(n(a).clamp(n(-2.0), n(2.0)).bits), a.clamp(-2.0, 2.0));
        }
    }
}
