//! What camera updates, presets and the numbers in them come to.

use crate::camera::{
    default_pose, default_preset, requested, ActivateTerminalCameraPreset, CameraModel,
    SlotsModel, TerminalCameraPose, TerminalCameraPreset, TerminalCameraUpdate,
};
use crate::command_laws::order;
use crate::mouse::{displayed, zoomed};
use crate::number::Number;
use crate::scene::TerminalPresentationMode;
use vstd::prelude::*;

verus! {

/// Whether the bits of a single-precision number are those of one.
pub open spec fn is_number(number: Number) -> bool {
    number.bits as int % 0x8000_0000 <= 0x7f80_0000
}

/// Numbers are compared as the numbers that their bits stand for: by their magnitude, and
/// those with a sign the other way around. What is no number is neither equal to nor above
/// anything, and both zeros are equal.
pub proof fn law_numbers_are_compared(a: Number, b: Number)
    ensures
        a.nan() <==> !is_number(a),
        a.finite() <==> a.bits as int % 0x8000_0000 < 0x7f80_0000,
        a.reaches(b) <==> is_number(a) && is_number(b) && order(b.bits) <= order(a.bits),
        a.equals(b) <==> is_number(a) && is_number(b) && order(b.bits) == order(a.bits),
        a.positive() <==> is_number(a) && 0 < a.bits < 0x8000_0000,
        a.negative() <==> is_number(a) && a.bits > 0x8000_0000,
        (Number { bits: 0 }).equals(Number { bits: 0x8000_0000 }),
{
}

/// A number that is held between two others is itself where it lies between them, the lower
/// one where it is below, and the higher one where it is above.
pub proof fn law_numbers_are_held(number: Number, low: Number, high: Number)
    requires
        is_number(number),
        order(low.bits) <= order(high.bits),
    ensures
        order(number.bits) < order(low.bits) ==> number.clamped(low, high) == low,
        order(number.bits) > order(high.bits) ==> number.clamped(low, high) == high,
        order(low.bits) <= order(number.bits) <= order(high.bits) ==> number.clamped(low, high)
            == number,
{
}

/// An update moves the camera along each axis by its own number, turns it around the first
/// axis by the pitch, the second by the yaw and the third by the roll, and takes a scale from
/// 0.01 on and a field of view from 0.05 to 3.09 alone.
pub proof fn law_updates_set_what_they_give(pose: TerminalCameraPose, update: TerminalCameraUpdate)
    ensures
        ({
            let after = pose.updated(update);
            &&& update.translation.x matches Some(x) ==> after.translation.x == x
            &&& update.translation.y matches Some(y) ==> after.translation.y == y
            &&& update.translation.z matches Some(z) ==> after.translation.z == z
            &&& update.rotation.x matches Some(x) ==> after.pitch == x
            &&& update.rotation.y matches Some(y) ==> after.yaw == y
            &&& update.rotation.z matches Some(z) ==> after.roll == z
            &&& update.scale matches Some(scale) ==> if is_number(scale) && order(scale.bits)
                >= 0x3c23_d70a {
                after.orthographic_scale == scale
            } else {
                after.orthographic_scale == pose.orthographic_scale
            }
            &&& update.fov matches Some(fov) ==> if is_number(fov) && 0x3d4c_cccd <= order(fov.bits)
                <= 0x4045_dca8 {
                after.perspective_fov == fov
            } else {
                after.perspective_fov == pose.perspective_fov
            }
        }),
{
}

/// A preset has the mode that an update gives, or keeps its own; one that goes to a strip
/// remembers the mode that it came from, and one that leaves it remembers nothing.
pub proof fn law_presets_take_modes(preset: TerminalCameraPreset, update: TerminalCameraUpdate)
    ensures
        ({
            let after = preset.updated(update);
            &&& update.mode matches Some(mode) ==> after.mode == mode
            &&& update.mode is None ==> after.mode == preset.mode
            &&& after.pose == preset.pose.updated(update)
            &&& !(after.mode is Mobius3d) ==> after.mobius_source is None
            &&& after.mode is Mobius3d && !(preset.mode is Mobius3d) ==> (
            after.mobius_source matches Some(source) && source.mode == preset.mode && source.pose
                == after.pose)
        }),
{
}

/// There are ten slots, each of which starts flat and is updated by itself; the first one is
/// active, and a slot that does not exist is neither updated nor activated.
pub proof fn law_slots_are_switched(slots: SlotsModel, slot: usize, update: TerminalCameraUpdate)
    requires
        slots.wf(),
    ensures
        slots.presets.len() == 10,
        slot < 10 ==> slots.activated(slot).active == slot,
        slot >= 10 ==> slots.activated(slot) == slots,
        slots.activated(slot).presets == slots.presets,
        update.slot >= 10 ==> slots.updated(update) == slots,
        update.slot < 10 ==> {
            let after = slots.updated(update).presets[update.slot as int];
            let wanted = slots.presets[update.slot as int].updated(update);
            after == wanted || wanted.equals(after) && after == slots.presets[update.slot as int]
        },
        slots.updated(update).active == slots.active,
{
}

/// Slots are activated after updates in the order in which the updates ask for it.
pub proof fn law_activations_follow_updates(
    updates: Seq<TerminalCameraUpdate>,
    update: TerminalCameraUpdate,
)
    ensures
        update.activate ==> requested(updates.push(update)) == requested(updates).push(
            ActivateTerminalCameraPreset { slot: update.slot },
        ),
        !update.activate ==> requested(updates.push(update)) == requested(updates),
        requested(Seq::empty()).len() == 0,
{
    assert(updates.push(update).drop_last() =~= updates);
}

/// Activating a slot shows its preset and ends every drag; a strip starts to come up from
/// the preset of another kind, goes on moving from one that moves, and stands still where one
/// stood; any other preset ends the strip.
pub proof fn law_activated_slots_are_shown(camera: CameraModel, slot: usize)
    requires
        camera.slots.wf(),
        slot < 10,
        slot != camera.slots.active,
    ensures
        ({
            let after = camera.activated(slot);
            let preset = camera.slots.presets[slot as int];
            let from_strip = camera.slots.presets[camera.slots.active].mode is Mobius3d;
            &&& after.slots.active == slot
            &&& after.slots.presets[slot as int].mode == preset.mode
            &&& after.slots.presets[slot as int].pose == preset.pose
            &&& !after.interaction.rotating && !after.interaction.panning
            &&& !(preset.mode is Mobius3d) ==> !after.transition.active
            &&& preset.mode is Mobius3d && !from_strip ==> after.transition.active
                && !after.transition.resumed && after.transition.target == preset.pose
            &&& preset.mode is Mobius3d && from_strip ==> after.transition.active
                == camera.transition.active
            &&& preset.mode is Mobius3d && from_strip && camera.transition.active
                ==> after.transition.resumed
            &&& preset.mode is Mobius3d ==> (after.transition.source matches Some((owner, source))
                && owner == slot && (preset.mobius_source matches Some(known) ==> source == known)
                && (preset.mobius_source is None ==> source.mode is Plane3d && source.pose
                == preset.pose))
            &&& forall|i: int|
                0 <= i < 10 && i != slot ==> #[trigger] after.slots.presets[i]
                    == camera.slots.presets[i]
        }),
{
}

/// Activating the slot that is active, or one that does not exist, does nothing.
pub proof fn law_other_activations_do_nothing(camera: CameraModel, slot: usize)
    requires
        camera.slots.wf(),
        slot >= 10 || slot == camera.slots.active,
    ensures
        camera.activated(slot) == camera,
{
}

/// An update of a preset that is not shown, and not about to be, leaves the strip alone; one
/// of the preset that is shown starts it where that becomes a strip, and ends its movement
/// where that was one or is none.
pub proof fn law_updates_move_the_strip(camera: CameraModel, update: TerminalCameraUpdate)
    requires
        camera.slots.wf(),
        update.slot < 10,
    ensures
        ({
            let after = camera.updated(update);
            let before_mode = camera.slots.presets[update.slot as int].mode;
            let changed = camera.slots.changes(update);
            let shown = update.slot == camera.slots.active;
            let mode = match update.mode {
                Some(mode) => mode,
                None => before_mode,
            };
            &&& !changed || !shown && !update.activate ==> after.transition == camera.transition
            &&& changed && shown && mode is Mobius3d && !(before_mode is Mobius3d)
                ==> after.transition.active && !after.transition.resumed
            &&& changed && (shown || update.activate) && !(mode is Mobius3d && !(
            before_mode is Mobius3d) && shown) ==> !after.transition.active
            &&& changed && shown && mode != before_mode ==> !after.interaction.rotating
                && !after.interaction.panning
            &&& !(changed && shown && mode != before_mode) ==> after.interaction
                == camera.interaction
        }),
{
}

/// A camera starts flat, with nothing turned by hand, at scale 1 and with a field of view of
/// one radian, at the middle.
pub proof fn law_cameras_start_flat()
    ensures
        default_preset().mode is Flat2d,
        default_preset().mobius_source is None,
        default_preset().pose == default_pose(),
        default_pose().yaw.bits == 0x3e38_51ec,
        default_pose().pitch.bits == 0x3da3_d70a,
        default_pose().roll.bits == 0,
        default_pose().orthographic_scale.bits == 0x3f80_0000,
        default_pose().perspective_fov.bits == 0x3f80_0000,
        default_pose().translation.x.bits == 0,
        default_pose().translation.y.bits == 0,
        default_pose().translation.z.bits == 0,
{
}

/// The wheel zooms what the mode displays: the field of view in perspective, from 0.05 to
/// 3.09, and the scale otherwise, from 0.01 to 4 or to what it was, where that is more. It
/// changes nothing else, and nothing at all on the flat terminal, while a strip moves or
/// where it did not turn.
pub proof fn law_wheels_zoom_what_is_displayed(
    pose: TerminalCameraPose,
    mode: TerminalPresentationMode,
    animating: bool,
    delta: Number,
    moved: Number,
)
    requires
        is_number(moved),
        is_number(pose.orthographic_scale),
    ensures
        ({
            let after = zoomed(pose, mode, animating, delta, moved);
            let turned = !(is_number(delta) && (delta.bits == 0 || delta.bits == 0x8000_0000));
            let zooms = !(mode is Flat2d) && !animating && turned;
            let highest = if order(pose.orthographic_scale.bits) > 0x4080_0000 {
                order(pose.orthographic_scale.bits)
            } else {
                0x4080_0000
            };
            &&& !zooms ==> after == pose
            &&& after.yaw == pose.yaw && after.pitch == pose.pitch && after.roll == pose.roll
                && after.translation == pose.translation
            &&& zooms && mode is Perspective3d ==> {
                &&& after.orthographic_scale == pose.orthographic_scale
                &&& 0x3d4c_cccd <= order(moved.bits) <= 0x4045_dca8 ==> after.perspective_fov
                    == moved
                &&& order(moved.bits) < 0x3d4c_cccd ==> order(after.perspective_fov.bits)
                    == 0x3d4c_cccd
                &&& order(moved.bits) > 0x4045_dca8 ==> order(after.perspective_fov.bits)
                    == 0x4045_dca8
            }
            &&& zooms && !(mode is Perspective3d) ==> {
                &&& after.perspective_fov == pose.perspective_fov
                &&& 0x3c23_d70a <= order(moved.bits) <= highest ==> after.orthographic_scale == moved
                &&& order(moved.bits) < 0x3c23_d70a ==> order(after.orthographic_scale.bits)
                    == 0x3c23_d70a
                &&& order(moved.bits) > highest ==> order(after.orthographic_scale.bits) == highest
            }
            &&& mode is Perspective3d ==> displayed(pose, mode) == pose.perspective_fov
            &&& !(mode is Perspective3d) ==> displayed(pose, mode) == pose.orthographic_scale
        }),
{
}

/// Updates count one after the other, and so do activations.
pub proof fn law_updates_count_in_order(
    camera: CameraModel,
    updates: Seq<TerminalCameraUpdate>,
    update: TerminalCameraUpdate,
    activations: Seq<ActivateTerminalCameraPreset>,
    activation: ActivateTerminalCameraPreset,
)
    ensures
        camera.all_updated(Seq::empty()) == camera,
        camera.all_updated(updates.push(update)) == camera.all_updated(updates).updated(update),
        camera.all_activated(Seq::empty()) == camera,
        camera.all_activated(activations.push(activation)) == camera.all_activated(
            activations,
        ).activated(activation.slot),
{
    assert(updates.push(update).drop_last() =~= updates);
    assert(activations.push(activation).drop_last() =~= activations);
}

/// Poses are equal where each number of theirs is, presets where their modes, their poses and
/// what they remember are.
pub proof fn law_presets_are_compared(a: TerminalCameraPreset, b: TerminalCameraPreset)
    ensures
        a.pose.equals(b.pose) <==> {
            &&& a.pose.yaw.equals(b.pose.yaw)
            &&& a.pose.pitch.equals(b.pose.pitch)
            &&& a.pose.roll.equals(b.pose.roll)
            &&& a.pose.orthographic_scale.equals(b.pose.orthographic_scale)
            &&& a.pose.perspective_fov.equals(b.pose.perspective_fov)
            &&& a.pose.translation.x.equals(b.pose.translation.x)
            &&& a.pose.translation.y.equals(b.pose.translation.y)
            &&& a.pose.translation.z.equals(b.pose.translation.z)
        },
        a.equals(b) <==> {
            &&& a.mode == b.mode
            &&& a.pose.equals(b.pose)
            &&& a.mobius_source is Some <==> b.mobius_source is Some
            &&& a.mobius_source is Some ==> a.mobius_source->0.mode == b.mobius_source->0.mode
                && a.mobius_source->0.pose.equals(b.mobius_source->0.pose)
        },
{
}

/// A strip that is updated, and is different then, remembers the mode that it came from and
/// the pose there with the same update; one that remembered nothing came from a plane.
pub proof fn law_strips_remember_where_they_came_from(
    preset: TerminalCameraPreset,
    update: TerminalCameraUpdate,
)
    requires
        preset.mode is Mobius3d,
        update.mode is None || update.mode->0 is Mobius3d,
    ensures
        ({
            let after = preset.updated(update);
            let (mode, pose) = match preset.mobius_source {
                Some(source) => (source.mode, source.pose),
                None => (TerminalPresentationMode::Plane3d, preset.pose),
            };
            let moved = !preset.pose.updated(update).equals(preset.pose);
            let there = !pose.updated(update).equals(pose);
            &&& moved || there ==> (after.mobius_source matches Some(source) && source.mode == mode
                && source.pose == pose.updated(update))
            &&& !moved && !there ==> after.mobius_source == preset.mobius_source
        }),
{
}

/// The strip of a preset that is updated, and shown or about to be, goes back to what the
/// preset remembers then; one that starts to come up comes up to the pose of the preset.
pub proof fn law_updated_strips_go_back(camera: CameraModel, update: TerminalCameraUpdate)
    requires
        camera.slots.wf(),
        update.slot < 10,
        camera.slots.changes(update),
        update.slot == camera.slots.active || update.activate,
        camera.slots.presets[update.slot as int].updated(update).mode is Mobius3d,
    ensures
        ({
            let before = camera.slots.presets[update.slot as int];
            let preset = before.updated(update);
            let after = camera.updated(update).transition;
            &&& after.source matches Some((slot, source)) && slot == update.slot && match preset.mobius_source {
                Some(remembered) => source == remembered,
                None => source.mode is Plane3d && source.pose == preset.pose,
            }
            &&& !(before.mode is Mobius3d) && update.slot == camera.slots.active ==> after.target
                == preset.pose
        }),
{
}

} // verus!
