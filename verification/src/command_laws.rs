//! What commands of the control protocol are let through, and what they do.

use crate::commands::{
    amplitude_of, command_refusal, coordinate, keys_input, lattice_side, plans, point_ok,
    points_of, points_ok, shape_refusal, ControlPlan, ControlState,
};
use crate::control::{
    framed, hex_text, presentation_of, refusal, ControlCommand, ControlSurfaceKind,
    ControlViewMode, EncodedKey, ErrorModel, FrameError, ShapeUpdate,
};
use crate::number::Number;
use crate::scene::{TerminalPresentationMode, TerminalSurfaceKind};
use crate::snapshot::SnapshotRequest;
use vstd::prelude::*;
use vstd::utf8::encode_utf8;

verus! {

/// Where the bits of a single-precision number stand among all of them.
pub open spec fn order(bits: u32) -> int {
    if bits < 0x8000_0000 {
        bits as int
    } else {
        0x8000_0000 - bits
    }
}

/// Whether a number is one, and lies between two others.
pub open spec fn lies_between(number: Number, low: u32, high: u32) -> bool {
    &&& number.bits as int % 0x8000_0000 <= 0x7f80_0000
    &&& order(low) <= order(number.bits) <= order(high)
}

/// Whether a number is given only where it lies between two others.
pub open spec fn given_between(number: Option<Number>, low: u32, high: u32) -> bool {
    number matches Some(number) ==> lies_between(number, low, high)
}

/// Whether a number is given only where it is neither infinite nor no number at all.
pub open spec fn given_finite(number: Option<Number>) -> bool {
    number matches Some(number) ==> number.bits as int % 0x8000_0000 < 0x7f80_0000
}

/// A request is let through where it is of version 1 of the protocol and knows the token,
/// and refused otherwise: first for its version, then for its token.
pub proof fn law_requests_need_the_token(version: u16, token: Seq<char>, expected: Seq<char>)
    ensures
        refusal(version, token, expected) is None <==> version == 1 && token == expected,
        version != 1 ==> refusal(version, token, expected)->0.code
            == "unsupported_protocol_version"@,
        version == 1 && token != expected ==> refusal(version, token, expected)->0.code
            == "authentication_failed"@,
{
}

/// A request is a line of at most 128 KiB with its line break, and its body is what stands
/// before that.
pub proof fn law_requests_are_lines(body: Seq<u8>, b: u8)
    ensures
        body.len() < 131_072 ==> framed(body.push(10)) == Ok::<Seq<u8>, FrameError>(body),
        body.len() >= 131_072 ==> framed(body.push(b)) == Err::<Seq<u8>, FrameError>(
            FrameError::TooLarge,
        ),
        body.len() < 131_072 && b != 10 ==> framed(body.push(b)) == Err::<Seq<u8>, FrameError>(
            FrameError::Unterminated,
        ),
        framed(Seq::empty()) == Err::<Seq<u8>, FrameError>(FrameError::Empty),
{
    assert(body.push(10).drop_last() =~= body);
}

/// The value of a hexadecimal digit.
pub open spec fn hex_value(c: char) -> int {
    if '0' <= c && c <= '9' {
        c as int - '0' as int
    } else {
        c as int - 'a' as int + 10
    }
}

/// A token has two hexadecimal digits for each byte, that of the higher half first.
pub proof fn law_tokens_spell_bytes(bytes: Seq<u8>, i: int)
    requires
        0 <= i < bytes.len(),
    ensures
        hex_text(bytes).len() == bytes.len() * 2,
        hex_value(hex_text(bytes)[2 * i]) * 16 + hex_value(hex_text(bytes)[2 * i + 1]) == bytes[i],
        0 <= hex_value(hex_text(bytes)[2 * i]) < 16,
        0 <= hex_value(hex_text(bytes)[2 * i + 1]) < 16,
    decreases bytes.len(),
{
    let before = bytes.drop_last();
    lemma_hex_len(before);
    if i < bytes.len() - 1 {
        law_tokens_spell_bytes(before, i);
        assert(hex_text(bytes)[2 * i] == hex_text(before)[2 * i]);
        assert(hex_text(bytes)[2 * i + 1] == hex_text(before)[2 * i + 1]);
    }
}

proof fn lemma_hex_len(bytes: Seq<u8>)
    ensures
        hex_text(bytes).len() == bytes.len() * 2,
    decreases bytes.len(),
{
    if bytes.len() > 0 {
        lemma_hex_len(bytes.drop_last());
    }
}

/// Text is written where the child runs and it is no longer than 64 KiB: as it is, or in
/// paste brackets where that was asked for and the application wants them.
pub proof fn law_text_is_written(plan: ControlPlan, command: ControlCommand, state: ControlState)
    requires
        command is WriteText,
    ensures
        ({
            let request = command->WriteText_0;
            let len = encode_utf8(request.text@).len();
            let brackets = request.paste && state.bracketed_paste;
            &&& command_refusal(command, state) is None <==> state.connected && len <= 65_536
            &&& plans(plan, command, state) ==> (plan matches ControlPlan::WriteText {
                bytes,
                text_bytes,
                paste_requested,
                bracketed,
            } && bracketed == brackets && text_bytes == len && paste_requested == request.paste
                && (!brackets ==> bytes@ == encode_utf8(request.text@)) && (brackets ==> bytes@
                == encode_utf8("\x1b[200~"@) + encode_utf8(request.text@) + encode_utf8(
                "\x1b[201~"@,
            )))
        }),
{
}

/// Keys are pressed where the child runs, there are no more than 256 of them, all are known
/// and they send no more than 64 KiB: their bytes are sent one after the other.
pub proof fn law_keys_are_pressed_in_order(keys: Seq<EncodedKey>, bytes: Vec<u8>, message: String)
    ensures
        keys_input(Seq::empty()) == Ok::<Seq<u8>, ErrorModel>(Seq::empty()),
        keys_input(keys) matches Ok(input) ==> {
            &&& input.len() + bytes@.len() <= 65_536 ==> keys_input(
                keys.push(EncodedKey::Bytes(bytes)),
            ) == Ok::<Seq<u8>, ErrorModel>(input + bytes@)
            &&& input.len() + bytes@.len() > 65_536 ==> keys_input(
                keys.push(EncodedKey::Bytes(bytes)),
            ) is Err
            &&& keys_input(keys.push(EncodedKey::Unknown(message))) is Err
        },
        keys_input(keys) is Err ==> keys_input(keys.push(EncodedKey::Bytes(bytes))) is Err,
{
    assert(keys.push(EncodedKey::Bytes(bytes)).drop_last() =~= keys);
    assert(keys.push(EncodedKey::Unknown(message)).drop_last() =~= keys);
}

/// What a command to press keys needs, and what it sends.
pub proof fn law_keys_are_pressed(plan: ControlPlan, command: ControlCommand, state: ControlState)
    requires
        command is PressKeys,
    ensures
        ({
            let keys = command->PressKeys_0.keys@;
            &&& command_refusal(command, state) is None <==> state.connected && keys.len() <= 256
                && keys_input(keys) is Ok
            &&& plans(plan, command, state) ==> (plan matches ControlPlan::PressKeys {
                bytes,
                keys_pressed,
            } && keys_input(keys) == Ok::<Seq<u8>, ErrorModel>(bytes@) && keys_pressed == keys.len())
        }),
{
}

/// A terminal has from 1 to 1000 columns and rows; what is asked for within that is done, and
/// a side that is not given stays as it is. A font is from 4 to 256 large.
pub proof fn law_sizes_are_bounded(
    resize: ControlCommand,
    set: ControlCommand,
    state: ControlState,
    resized: ControlPlan,
    done: ControlPlan,
)
    requires
        resize is Resize,
        set is SetTerminal,
    ensures
        ({
            let request = resize->Resize_0;
            let update = set->SetTerminal_0;
            let columns = if update.columns is Some {
                update.columns->0
            } else {
                state.columns
            };
            let rows = if update.rows is Some {
                update.rows->0
            } else {
                state.rows
            };
            &&& command_refusal(resize, state) is None <==> 1 <= request.columns <= 1000 && 1
                <= request.rows <= 1000
            &&& plans(resized, resize, state) ==> resized == (ControlPlan::Resize {
                columns: request.columns,
                rows: request.rows,
            })
            &&& command_refusal(set, state) is None <==> 1 <= columns <= 1000 && 1 <= rows <= 1000
                && (update.font_size matches Some(size) ==> 4 <= size <= 256)
            &&& plans(done, set, state) ==> done == (ControlPlan::SetTerminal {
                columns,
                rows,
                font_size: update.font_size,
            })
        }),
{
}

/// A view is of one of ten cameras, the active one where none is named, and its numbers are
/// finite: the warp from 0 to 1, the zoom from 0.01 to 20, and the field of view from 3 to 177
/// degrees. Each number goes to what it is named after: pitch, yaw and roll are the turns
/// around the three axes. A camera that is named is activated, unless that is not wanted.
pub proof fn law_views_are_set(plan: ControlPlan, command: ControlCommand, state: ControlState)
    requires
        command is SetView,
    ensures
        ({
            let update = command->SetView_0;
            let slot = if update.slot is Some {
                update.slot->0 as int
            } else {
                state.active_slot as int
            };
            &&& command_refusal(command, state) is None <==> {
                &&& slot < 10
                &&& given_finite(update.warp) && given_finite(update.zoom) && given_finite(
                    update.fov_degrees,
                )
                &&& given_finite(update.yaw_degrees) && given_finite(update.pitch_degrees)
                    && given_finite(update.roll_degrees)
                &&& given_finite(update.x) && given_finite(update.y) && given_finite(update.z)
                &&& given_between(update.warp, 0, 0x3f80_0000)
                &&& given_between(update.zoom, 0x3c23_d70a, 0x41a0_0000)
                &&& given_between(update.fov_degrees, 0x4040_0000, 0x4331_0000)
            }
            &&& plans(plan, command, state) && slot < 10 ==> (plan matches ControlPlan::SetView {
                warp,
                view,
            } && warp == update.warp && view.slot == slot && view.activate == (
            update.activate == Some(true) || update.activate is None && update.slot is Some)
                && view.zoom == update.zoom && view.fov_degrees == update.fov_degrees
                && view.translation.x == update.x && view.translation.y == update.y
                && view.translation.z == update.z && view.rotation_degrees.x
                == update.pitch_degrees && view.rotation_degrees.y == update.yaw_degrees
                && view.rotation_degrees.z == update.roll_degrees && (update.mode is None
                <==> view.mode is None) && (update.mode matches Some(mode) ==> view.mode == Some(
                presentation_of(mode),
            )))
        }),
{
}

/// The cursor keeps what an update does not give, and takes what it gives: finite numbers,
/// the scale from 0.001 to 100, the brightness from 0 to 20 and the height of its jump from
/// -10 to 10.
pub proof fn law_cursors_are_set(plan: ControlPlan, command: ControlCommand, state: ControlState)
    requires
        command is SetCursor,
    ensures
        ({
            let update = command->SetCursor_0;
            let old_cursor = state.cursor;
            &&& command_refusal(command, state) is None <==> {
                &&& given_finite(update.scale) && given_finite(update.x_offset) && given_finite(
                    update.depth,
                ) && given_finite(update.brightness) && given_finite(update.spin_speed)
                    && given_finite(update.jump_speed) && given_finite(update.jump_height)
                &&& given_between(update.scale, 0x3a83_126f, 0x42c8_0000)
                &&& given_between(update.brightness, 0, 0x41a0_0000)
                &&& given_between(update.jump_height, 0xc120_0000, 0x4120_0000)
            }
            &&& plans(plan, command, state) ==> (plan matches ControlPlan::SetCursor(cursor)
                && is_updated(update.scale, old_cursor.scale, cursor.scale) && is_updated(
                update.x_offset,
                old_cursor.x_offset,
                cursor.x_offset,
            ) && is_updated(update.depth, old_cursor.depth, cursor.depth) && is_updated(
                update.brightness,
                old_cursor.brightness,
                cursor.brightness,
            ) && is_updated(update.spin_speed, old_cursor.spin_speed, cursor.spin_speed)
                && is_updated(update.jump_speed, old_cursor.jump_speed, cursor.jump_speed)
                && is_updated(update.jump_height, old_cursor.jump_height, cursor.jump_height)
                && cursor.visible == (if update.visible is Some {
                update.visible->0
            } else {
                old_cursor.visible
            }))
        }),
{
}

/// Whether a number is what is given, or else what it was.
pub open spec fn is_updated(given: Option<Number>, before: Number, after: Number) -> bool {
    &&& given matches Some(number) ==> after == number
    &&& given is None ==> after == before
}

/// A window that is there has sides from 64 to 16384, and a title of at most 1024 bytes. A
/// side that is not given stays, and so does a coordinate; both sides are set where one is.
pub proof fn law_windows_are_set(plan: ControlPlan, command: ControlCommand, state: ControlState)
    requires
        command is SetWindow,
        state.window is Some,
    ensures
        ({
            let update = command->SetWindow_0;
            let window = state.window->0;
            let width = if update.width is Some {
                update.width->0
            } else {
                window.width
            };
            let height = if update.height is Some {
                update.height->0
            } else {
                window.height
            };
            &&& command_refusal(command, state) is None <==> {
                &&& 64 <= width <= 16_384 && 64 <= height <= 16_384
                &&& update.title matches Some(title) ==> encode_utf8(title@).len() <= 1024
            }
            &&& plans(plan, command, state) ==> (plan matches ControlPlan::SetWindow {
                size,
                position,
                title,
                background,
            } && title == update.title && background == update.background_rgb && (size is Some
                <==> update.width is Some || update.height is Some) && (size matches Some(sides)
                ==> sides.0 == width && sides.1 == height) && (position is Some <==> update.x is Some
                || update.y is Some) && (position matches Some(at) ==> (update.x matches Some(x)
                ==> at.0 == x) && (update.y matches Some(y) ==> at.1 == y) && (update.x is None
                && window.position is Some ==> at.0 == window.position.unwrap().0) && (update.y is None
                && window.position is Some ==> at.1 == window.position.unwrap().1)))
        }),
{
}

/// A snapshot is taken as it is asked for, of a rectangle that is not empty; the state is told
/// and the terminal closed whenever that is asked for.
pub proof fn law_snapshots_are_taken(
    plan: ControlPlan,
    request: SnapshotRequest,
    state: ControlState,
)
    ensures
        command_refusal(ControlCommand::Snapshot(request), state) is None <==> (
        request.rect matches Some(rect) ==> rect.rows > 0 && rect.columns > 0),
        plans(plan, ControlCommand::Snapshot(request), state) ==> plan == ControlPlan::TakeSnapshot(
            request,
        ),
        command_refusal(ControlCommand::GetState, state) is None,
        command_refusal(ControlCommand::Close, state) is None,
        plans(plan, ControlCommand::GetState, state) ==> plan == ControlPlan::ReportState,
        plans(plan, ControlCommand::Close, state) ==> plan == ControlPlan::Close,
{
}

/// Whether a point has three coordinates between -10000 and 10000.
pub open spec fn point_in_reach(point: [Number; 3]) -> bool {
    lies_between(point@[0], 0xc61c_4000, 0x461c_4000) && lies_between(
        point@[1],
        0xc61c_4000,
        0x461c_4000,
    ) && lies_between(point@[2], 0xc61c_4000, 0x461c_4000)
}

/// The points that an update gives.
pub open spec fn given_points(update: ShapeUpdate) -> Seq<[Number; 3]> {
    match update.control_points {
        Some(points) => points@,
        None => Seq::empty(),
    }
}

/// A surface has an amplitude from 0 to 10, 1 where none is given. One of its own has a point
/// for each place of a lattice of 2 to 8 columns and rows, all within reach, and is shown in
/// perspective where the terminal is flat or a strip.
pub proof fn law_surfaces_are_set(plan: ControlPlan, command: ControlCommand, state: ControlState)
    requires
        command is SetShape,
    ensures
        ({
            let update = command->SetShape_0;
            let amplitude = if update.amplitude is Some {
                update.amplitude->0
            } else {
                Number { bits: 0x3f80_0000 }
            };
            let columns = if update.control_columns is Some {
                update.control_columns->0 as int
            } else {
                0
            };
            let rows = if update.control_rows is Some {
                update.control_rows->0 as int
            } else {
                0
            };
            let points = given_points(update);
            let custom = update.kind == ControlSurfaceKind::Custom;
            &&& command_refusal(command, state) is None <==> {
                &&& lies_between(amplitude, 0, 0x4120_0000)
                &&& custom ==> {
                    &&& 2 <= columns <= 8 && 2 <= rows <= 8
                    &&& points.len() == columns * rows
                    &&& forall|i: int| 0 <= i < points.len() ==> point_in_reach(#[trigger] points[i])
                }
            }
            &&& plans(plan, command, state) ==> (plan matches ControlPlan::SetShape { shape, camera }
                && shape.amplitude == amplitude && (custom ==> shape.kind
                == TerminalSurfaceKind::Custom && shape.control_columns == columns
                && shape.control_rows == rows && shape.control_points@ == points) && (!custom
                ==> shape.kind == TerminalSurfaceKind::ModeDefault) && (camera is Some <==> custom
                && (state.active_mode is Flat2d || state.active_mode is Mobius3d))
                && (camera matches Some(view) ==> view.slot == state.active_slot && !view.activate
                && view.mode == Some(TerminalPresentationMode::Perspective3d) && view.zoom is None
                && view.fov_degrees is None))
        }),
{
    let update = command->SetShape_0;
    let points = given_points(update);
    assert(points_of(update) == points);
    let columns = lattice_side(update.control_columns) as int;
    let rows = lattice_side(update.control_rows) as int;
    let amplitude = amplitude_of(update);
    assert(amplitude.finite() && amplitude.between(
        Number { bits: 0 },
        Number { bits: 0x4120_0000 },
    ) <==> lies_between(amplitude, 0, 0x4120_0000));
    assert forall|i: int| 0 <= i < points.len() implies point_ok(#[trigger] points[i])
        == point_in_reach(points[i]) by {
        lemma_in_reach(points[i]@[0]);
        lemma_in_reach(points[i]@[1]);
        lemma_in_reach(points[i]@[2]);
    }
    assert(points_ok(points) <==> forall|i: int|
        0 <= i < points.len() ==> point_in_reach(#[trigger] points[i]));
    assert(shape_refusal(update) is None <==> {
        &&& lies_between(amplitude, 0, 0x4120_0000)
        &&& update.kind == ControlSurfaceKind::Custom ==> {
            &&& 2 <= columns <= 8 && 2 <= rows <= 8
            &&& points.len() == columns * rows
            &&& points_ok(points)
        }
    });
}

proof fn lemma_in_reach(value: Number)
    ensures
        coordinate(value) <==> lies_between(value, 0xc61c_4000, 0x461c_4000),
{
}

/// The names of the ways to show the terminal are those of the ways.
pub proof fn law_modes_are_named()
    ensures
        forall|mode: ControlViewMode|
            #![trigger presentation_of(mode)]
            {
                &&& presentation_of(mode) is Flat2d <==> mode == ControlViewMode::Flat
                &&& presentation_of(mode) is Plane3d <==> mode == ControlViewMode::Ortho
                &&& presentation_of(mode) is Perspective3d <==> mode == ControlViewMode::Perspective
                &&& presentation_of(mode) is Mobius3d <==> mode == ControlViewMode::Mobius
            },
{
}

} // verus!
