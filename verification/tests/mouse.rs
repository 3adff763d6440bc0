//! Mouse input, touch gestures and selections.

use ratty::camera::{TerminalCameraInteraction, TerminalCameraPose, MIN_ORTHOGRAPHIC_SCALE};
use ratty::mouse::{
    apply_wheel_zoom, displayed_projection, encode_mouse_event, encode_mouse_wheel,
    wheel_zoomed_orthographic_scale, CellPosition, ForwardedMouseState, MouseAction, MouseButton,
    MouseContext, MouseEvent, MouseScrollUnit, MouseSession, SelectionBounds, TerminalSelection,
    TouchGesture, TouchGestureState, TouchMeasure, TouchPhase,
};
use ratty::number::{Number, Point};
use ratty::ratty_vt::{MouseProtocolEncoding, MouseProtocolMode, Parser};
use ratty::scene::TerminalPresentationMode;

fn n(value: f32) -> Number {
    Number { bits: value.to_bits() }
}

fn f(number: Number) -> f32 {
    f32::from_bits(number.bits)
}

fn point(x: f32, y: f32) -> Point {
    Point { x: n(x), y: n(y) }
}

fn at(point: Point) -> (f32, f32) {
    (f(point.x), f(point.y))
}

fn cell(x: u32, y: u32) -> CellPosition {
    CellPosition { x, y }
}

/// What a touch amounts to in a window, from where a swipe began.
fn measure(state: &TouchGestureState, position: (f32, f32), window: (f32, f32)) -> TouchMeasure {
    let threshold = (window.0.min(window.1) * 0.18).clamp(72.0, 180.0);
    let (swiped, reserved) = match state.mobius_swipe_start {
        Some(start) => {
            let (x, y) = (position.0 - f(start.x), position.1 - f(start.y));
            (x >= threshold && y <= -threshold, x >= -24.0 && y <= 24.0)
        }
        None => (false, false),
    };
    TouchMeasure {
        in_corner: position.0 <= threshold && position.1 >= window.1 - threshold,
        swiped,
        reserved,
    }
}

fn touch(
    state: &mut TouchGestureState,
    id: u64,
    phase: TouchPhase,
    position: (f32, f32),
    window: (f32, f32),
) -> Option<TouchGesture> {
    let measured = measure(state, position, window);
    state.update(id, phase, point(position.0, position.1), measured)
}

#[test]
fn one_finger_rotates_and_two_fingers_pan_and_pinch() {
    let mut state = TouchGestureState::default();
    let window = (1000.0, 600.0);

    assert!(touch(&mut state, 7, TouchPhase::Started, (10.0, 20.0), window).is_none());
    match touch(&mut state, 7, TouchPhase::Moved, (14.0, 17.0), window) {
        Some(TouchGesture::Rotate { from, to }) => {
            let (from, to) = (at(from), at(to));
            assert_eq!((to.0 - from.0, to.1 - from.1), (4.0, -3.0));
        }
        other => panic!("unexpected gesture {other:?}"),
    }
    assert!(touch(&mut state, 8, TouchPhase::Started, (4.0, 17.0), window).is_none());
    match touch(&mut state, 8, TouchPhase::Moved, (0.0, 17.0), window) {
        Some(TouchGesture::PanAndZoom { before, after }) => {
            let distance = |pair: (Point, Point)| {
                let (a, b) = (at(pair.0), at(pair.1));
                ((a.0 - b.0).powi(2) + (a.1 - b.1).powi(2)).sqrt()
            };
            let center = |pair: (Point, Point)| {
                let (a, b) = (at(pair.0), at(pair.1));
                ((a.0 + b.0) * 0.5, (a.1 + b.1) * 0.5)
            };
            let (from, to) = (center(before), center(after));
            assert_eq!((to.0 - from.0, to.1 - from.1), (-2.0, 0.0));
            assert_eq!(distance(after) - distance(before), 4.0);
        }
        other => panic!("unexpected gesture {other:?}"),
    }

    touch(&mut state, 7, TouchPhase::Ended, (14.0, 17.0), window);
    assert_eq!(state.primary.map(|(id, place)| (id, at(place))), Some((8, (0.0, 17.0))));
    match touch(&mut state, 8, TouchPhase::Moved, (3.0, 19.0), window) {
        Some(TouchGesture::Rotate { from, to }) => {
            let (from, to) = (at(from), at(to));
            assert_eq!((to.0 - from.0, to.1 - from.1), (3.0, 2.0));
        }
        other => panic!("unexpected gesture {other:?}"),
    }
}

#[test]
fn bottom_left_swipe_enters_mobius() {
    let mut state = TouchGestureState::default();
    let window = (1000.0, 600.0);

    touch(&mut state, 1, TouchPhase::Started, (40.0, 560.0), window);
    assert!(matches!(
        touch(&mut state, 1, TouchPhase::Moved, (160.0, 440.0), window),
        Some(TouchGesture::EnterMobius)
    ));
    assert!(state.primary.is_none());
}

#[test]
fn canceled_touch_rotation_can_restart() {
    let mut state = TouchGestureState::default();
    let window = (500.0, 500.0);
    touch(&mut state, 1, TouchPhase::Started, (1.0, 1.0), window);
    touch(&mut state, 1, TouchPhase::Canceled, (1.0, 1.0), window);
    touch(&mut state, 2, TouchPhase::Started, (3.0, 4.0), window);

    assert_eq!(state.primary.map(|(id, place)| (id, at(place))), Some((2, (3.0, 4.0))));
    assert!(state.secondary.is_none());
}

#[test]
fn focus_loss_releases_every_pointer_drag() {
    let mut session = MouseSession {
        interaction: TerminalCameraInteraction {
            rotating: true,
            panning: true,
            last_rotate_cursor: Some(point(1.0, 1.0)),
            last_pan_cursor: Some(point(1.0, 1.0)),
        },
        forwarded: ForwardedMouseState {
            left_pressed: true,
            middle_pressed: true,
            right_pressed: true,
            last_cell: Some(cell(0, 0)),
        },
        ..MouseSession::default()
    };
    session.selection.begin(cell(2, 3));

    session.release_pointer_drags();

    assert!(!session.interaction.rotating);
    assert!(!session.interaction.panning);
    assert!(session.interaction.last_rotate_cursor.is_none());
    assert!(!session.selection.dragging);
    // The completed selection itself survives; only the drag is released.
    assert!(session.selection.normalized_bounds().is_some());
    assert!(!session.forwarded.left_pressed);
    assert!(!session.forwarded.middle_pressed);
    assert!(!session.forwarded.right_pressed);
    assert_eq!(session.forwarded.last_cell, None);

    let mut pending = MouseSession::default();
    pending.selection.begin_pending(cell(0, 0), point(0.0, 0.0));
    pending.release_pointer_drags();
    assert_eq!(pending.selection.pending_start, None);
    assert!(!pending.selection.update_from_cursor(cell(5, 5), true));
}

/// Zooms as a step of the wheel does.
fn zoom(pose: &mut TerminalCameraPose, mode: TerminalPresentationMode, moving: bool, delta: f32) {
    let moved = f(displayed_projection(pose, mode)) - delta;
    apply_wheel_zoom(pose, mode, moving, n(delta), n(moved));
}

#[test]
fn mobius_wheel_zoom_shares_the_orthographic_branch() {
    let mut pose = TerminalCameraPose::default();
    zoom(&mut pose, TerminalPresentationMode::Mobius3d, false, 0.1);
    assert_eq!(f(pose.orthographic_scale), 0.9);
    assert_eq!(f(pose.perspective_fov), f(TerminalCameraPose::default().perspective_fov));

    let mut plane_pose = TerminalCameraPose::default();
    zoom(&mut plane_pose, TerminalPresentationMode::Plane3d, false, 0.1);
    assert_eq!(f(plane_pose.orthographic_scale), f(pose.orthographic_scale));

    // While the Mobius transition animates, the wheel is ignored.
    let before = pose;
    zoom(&mut pose, TerminalPresentationMode::Mobius3d, true, 0.1);
    assert!(pose.same(before));

    zoom(&mut pose, TerminalPresentationMode::Perspective3d, false, 5.0);
    assert_eq!(f(pose.perspective_fov), 0.05);
    zoom(&mut pose, TerminalPresentationMode::Flat2d, false, 0.1);
    assert_eq!(f(pose.orthographic_scale), 0.9);
}

fn wheel_zoomed(current: f32, delta: f32) -> f32 {
    f(wheel_zoomed_orthographic_scale(n(current), n(current - delta)))
}

#[test]
fn wheel_zoom_respects_the_protocol_scale_range() {
    // A protocol-set scale above the interactive cap is not snapped down.
    assert_eq!(wheel_zoomed(20.0, -0.1), 20.0);
    // Zooming in from a large scale moves toward the view, not to 4.0.
    assert_eq!(wheel_zoomed(20.0, 0.1), 19.9);
    // Zooming in near the protocol minimum never zooms out instead.
    let zoomed = wheel_zoomed(0.05, 0.1);
    assert!(zoomed <= 0.05);
    assert!(zoomed >= f32::from_bits(MIN_ORTHOGRAPHIC_SCALE));
    // The ordinary interactive range still behaves as before.
    assert_eq!(wheel_zoomed(1.0, 0.1), 0.9);
    assert_eq!(wheel_zoomed(3.95, -0.1), 4.0);
}

fn terminal(rows: u16, cols: u16, input: &str) -> Parser {
    let mut parser = Parser::new(rows, cols, 1000);
    parser.process(input.as_bytes());
    parser
}

fn select(start: (u32, u32), end: (u32, u32)) -> TerminalSelection {
    let mut selection = TerminalSelection::default();
    selection.begin(cell(start.0, start.1));
    selection.update(cell(end.0, end.1));
    selection
}

#[test]
fn selection_returns_the_drawn_text() {
    let term = terminal(3, 20, "hello world");
    let selection = select((0, 0), (10, 0));
    assert_eq!(selection.selected_text(term.screen()).as_deref(), Some("hello world"));
}

#[test]
fn selection_spans_multiple_rows() {
    let term = terminal(3, 20, "first\r\nsecond");
    let selection = select((0, 0), (5, 1));
    assert_eq!(selection.selected_text(term.screen()).as_deref(), Some("first\nsecond"));
}

#[test]
fn selection_preserves_wide_characters_and_combining_marks() {
    let term = terminal(3, 20, "你好e\u{0301}z");
    let selection = select((0, 0), (5, 0));
    assert_eq!(selection.selected_text(term.screen()).as_deref(), Some("你好e\u{0301}z"));
}

#[test]
fn selection_without_a_drag_is_empty() {
    let term = terminal(3, 20, "hello");
    assert_eq!(TerminalSelection::default().selected_text(term.screen()), None);
}

#[test]
fn selections_reach_past_the_screen() {
    let term = terminal(2, 4, "ab");
    let selection = select((1, 3), (9, 0));
    // The rows below the screen give nothing but their line breaks.
    assert_eq!(selection.selected_text(term.screen()).as_deref(), Some("b\n\n\n"));
}

#[test]
fn bounds_cover_lines_between_the_first_and_the_last() {
    let bounds = SelectionBounds { start_row: 1, end_row: 3, start_col: 4, end_col: 6 };
    assert!(!bounds.contains(0, 5));
    assert!(!bounds.contains(1, 3));
    assert!(bounds.contains(1, 9));
    assert!(bounds.contains(2, 0));
    assert!(bounds.contains(3, 6));
    assert!(!bounds.contains(3, 7));
    let line = SelectionBounds { start_row: 1, end_row: 1, start_col: 4, end_col: 6 };
    assert!(line.contains(1, 5) && !line.contains(1, 7) && !line.contains(1, 3));
}

#[test]
fn mouse_events_are_encoded() {
    let sgr = MouseProtocolEncoding::Sgr;
    assert_eq!(encode_mouse_event(cell(2, 4), 0, false, sgr), b"\x1b[<0;3;5M");
    assert_eq!(encode_mouse_event(cell(299, 4), 35, true, sgr), b"\x1b[<35;300;5m");
    let plain = MouseProtocolEncoding::Default;
    assert_eq!(encode_mouse_event(cell(2, 4), 1, false, plain), b"\x1b[M!#%");
    assert_eq!(encode_mouse_event(cell(2, 4), 1, true, plain), b"\x1b[M##%");
    assert_eq!(
        encode_mouse_event(cell(500, 221), 1, true, plain),
        [0x1b, b'[', b'M', 35, 255, 254]
    );
    assert_eq!(encode_mouse_wheel(cell(0, 0), true, sgr), b"\x1b[<64;1;1M");
    assert_eq!(encode_mouse_wheel(cell(0, 0), false, plain), b"\x1b[Ma!!");
}

fn context(mode: TerminalPresentationMode, protocol: MouseProtocolMode) -> MouseContext {
    MouseContext {
        mode,
        transition_active: false,
        protocol,
        encoding: MouseProtocolEncoding::Sgr,
        alternate_screen: false,
        scroll_lines: 3,
        scrollback: 2,
    }
}

fn moved(x: f32, under: Option<CellPosition>, far: bool) -> MouseEvent {
    MouseEvent::Moved { position: point(x, 0.0), cell: under, far }
}

fn button(button: MouseButton, pressed: bool, under: CellPosition) -> MouseEvent {
    MouseEvent::Button { button, pressed, cell: Some(under), remembered: Some(under) }
}

fn sent(action: MouseAction) -> String {
    match action {
        MouseAction::Send(bytes) => String::from_utf8(bytes).expect("ascii"),
        other => panic!("nothing was sent: {other:?}"),
    }
}

#[test]
fn applications_get_buttons_and_motion() {
    let wants = context(TerminalPresentationMode::Flat2d, MouseProtocolMode::ButtonMotion);
    let mut session = MouseSession::default();
    assert!(matches!(
        session.handle_mouse_input(moved(1.0, Some(cell(1, 0)), false), &wants),
        MouseAction::Ignore
    ));
    assert_eq!(
        sent(session.handle_mouse_input(button(MouseButton::Middle, true, cell(1, 0)), &wants)),
        "\x1b[<1;2;1M"
    );
    // The same cell is not reported again.
    assert!(matches!(
        session.handle_mouse_input(moved(1.5, Some(cell(1, 0)), false), &wants),
        MouseAction::Ignore
    ));
    assert_eq!(
        sent(session.handle_mouse_input(moved(9.0, Some(cell(2, 0)), false), &wants)),
        "\x1b[<33;3;1M"
    );
    assert_eq!(
        sent(session.handle_mouse_input(button(MouseButton::Right, true, cell(2, 0)), &wants)),
        "\x1b[<2;3;1M"
    );
    // The focus is lost: the application sees both buttons come up.
    assert_eq!(
        sent(session.handle_mouse_input(MouseEvent::FocusLost, &wants)),
        "\x1b[<1;3;1m\x1b[<2;3;1m"
    );
    assert!(matches!(
        session.handle_mouse_input(MouseEvent::FocusLost, &wants),
        MouseAction::Ignore
    ));
    let any = context(TerminalPresentationMode::Flat2d, MouseProtocolMode::AnyMotion);
    assert_eq!(
        sent(session.handle_mouse_input(moved(9.0, Some(cell(2, 0)), false), &any)),
        "\x1b[<35;3;1M"
    );
    assert_eq!(
        sent(session.handle_mouse_input(button(MouseButton::Left, false, cell(2, 0)), &any)),
        "\x1b[<0;3;1m"
    );
}

#[test]
fn drags_select_text() {
    let flat = context(TerminalPresentationMode::Flat2d, MouseProtocolMode::Off);
    let mut session = MouseSession::default();
    session.handle_mouse_input(moved(1.0, Some(cell(1, 0)), false), &flat);
    assert!(matches!(
        session.handle_mouse_input(button(MouseButton::Left, true, cell(1, 0)), &flat),
        MouseAction::Ignore
    ));
    assert!(session.selection.normalized_bounds().is_none());
    assert!(matches!(
        session.handle_mouse_input(moved(2.0, Some(cell(1, 0)), false), &flat),
        MouseAction::Ignore
    ));
    assert!(matches!(
        session.handle_mouse_input(moved(30.0, Some(cell(3, 0)), true), &flat),
        MouseAction::Redraw
    ));
    session.handle_mouse_input(button(MouseButton::Left, false, cell(3, 0)), &flat);
    let bounds = session.selection.normalized_bounds().expect("a selection");
    assert_eq!((bounds.start_col, bounds.end_col), (1, 3));
    // Another press takes the selection away.
    assert!(matches!(
        session.handle_mouse_input(button(MouseButton::Left, true, cell(0, 0)), &flat),
        MouseAction::Redraw
    ));
    assert!(session.selection.clear());
    assert!(!session.selection.clear());
}

#[test]
fn drags_turn_and_shift_the_camera() {
    let plane = context(TerminalPresentationMode::Plane3d, MouseProtocolMode::AnyMotion);
    let mut session = MouseSession::default();
    session.handle_mouse_input(moved(1.0, None, false), &plane);
    session.handle_mouse_input(button(MouseButton::Left, true, cell(0, 0)), &plane);
    match session.handle_mouse_input(moved(4.0, None, false), &plane) {
        MouseAction::Rotate { from, to } => assert_eq!((f(from.x), f(to.x)), (1.0, 4.0)),
        other => panic!("unexpected action {other:?}"),
    }
    session.handle_mouse_input(button(MouseButton::Left, false, cell(0, 0)), &plane);
    session.handle_mouse_input(button(MouseButton::Right, true, cell(0, 0)), &plane);
    match session.handle_mouse_input(moved(9.0, None, false), &plane) {
        MouseAction::Pan { from, to } => assert_eq!((f(from.x), f(to.x)), (4.0, 9.0)),
        other => panic!("unexpected action {other:?}"),
    }
    let strip = MouseContext {
        transition_active: true,
        ..context(TerminalPresentationMode::Mobius3d, MouseProtocolMode::Off)
    };
    assert!(matches!(
        session.handle_mouse_input(moved(10.0, None, false), &strip),
        MouseAction::Ignore
    ));
}

fn wheel(unit: MouseScrollUnit, delta: f32) -> MouseEvent {
    MouseEvent::Wheel { unit, delta: n(delta), cell: Some(cell(0, 0)) }
}

#[test]
fn wheels_scroll_zoom_or_go_to_the_application() {
    let flat = context(TerminalPresentationMode::Flat2d, MouseProtocolMode::Off);
    let mut session = MouseSession::default();
    session.selection.begin(cell(0, 0));
    assert!(matches!(
        session.handle_mouse_input(wheel(MouseScrollUnit::Line, 0.1), &flat),
        MouseAction::ScrollTo(5)
    ));
    assert!(session.selection.normalized_bounds().is_none());
    assert!(matches!(
        session.handle_mouse_input(wheel(MouseScrollUnit::Line, -0.1), &flat),
        MouseAction::ScrollTo(0)
    ));
    assert!(matches!(
        session.handle_mouse_input(wheel(MouseScrollUnit::Pixel, 0.1), &flat),
        MouseAction::ScrollPixels
    ));
    assert!(matches!(session.scroll_lines(0, 7), MouseAction::Ignore));
    assert!(matches!(session.scroll_lines(-3, 7), MouseAction::ScrollTo(4)));
    let alternate = MouseContext { alternate_screen: true, ..flat };
    assert!(matches!(
        session.handle_mouse_input(wheel(MouseScrollUnit::Line, 0.1), &alternate),
        MouseAction::Ignore
    ));
    let plane = context(TerminalPresentationMode::Plane3d, MouseProtocolMode::Off);
    assert!(matches!(
        session.handle_mouse_input(wheel(MouseScrollUnit::Line, 0.1), &plane),
        MouseAction::Zoom
    ));
    let wants = context(TerminalPresentationMode::Flat2d, MouseProtocolMode::Press);
    assert_eq!(
        sent(session.handle_mouse_input(wheel(MouseScrollUnit::Line, -0.1), &wants)),
        "\x1b[<65;1;1M"
    );
    let gesture = MouseEvent::Touch {
        id: 1,
        phase: TouchPhase::Started,
        position: point(0.0, 600.0),
        measure: TouchMeasure { in_corner: true, swiped: false, reserved: true },
    };
    session.handle_mouse_input(gesture, &flat);
    let swipe = MouseEvent::Touch {
        id: 1,
        phase: TouchPhase::Moved,
        position: point(200.0, 400.0),
        measure: TouchMeasure { in_corner: false, swiped: true, reserved: true },
    };
    assert!(matches!(session.handle_mouse_input(swipe, &flat), MouseAction::EnterMobius));
}
