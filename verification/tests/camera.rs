//! Camera presets.

use ratty::camera::{
    activate_terminal_camera_presets, apply_terminal_camera_updates, ActivateTerminalCameraPreset,
    OptionalVec3, TerminalCamera, TerminalCameraPose, TerminalCameraPreset, TerminalCameraSlots,
    TerminalCameraUpdate, MAX_PERSPECTIVE_FOV, MIN_ORTHOGRAPHIC_SCALE, MIN_PERSPECTIVE_FOV,
    TERMINAL_CAMERA_SLOT_COUNT,
};
use ratty::number::{Number, Point};
use ratty::scene::{
    back_color, presentation_visibility, terminal_plane_indices, TerminalPlaneWarp,
    TerminalPresentation, TerminalPresentationMode, TerminalSurfaceKind, TerminalSurfaceShape,
};

fn n(value: f32) -> Number {
    Number { bits: value.to_bits() }
}

fn f(number: Number) -> f32 {
    f32::from_bits(number.bits)
}

fn degrees(value: f32) -> Number {
    n(value.to_radians())
}

fn same_pose(a: &TerminalCameraPose, b: &TerminalCameraPose) -> bool {
    a.same(*b)
}

fn update(slot: usize) -> TerminalCameraUpdate {
    TerminalCameraUpdate {
        slot,
        activate: false,
        mode: None,
        scale: None,
        fov: None,
        translation: OptionalVec3::default(),
        rotation: OptionalVec3::default(),
    }
}

/// Applies updates, and the activations that they ask for.
fn run(camera: &mut TerminalCamera, updates: &[TerminalCameraUpdate]) {
    let activations = apply_terminal_camera_updates(camera, updates);
    activate_terminal_camera_presets(camera, &activations);
}

#[test]
fn limits_are_the_documented_numbers() {
    assert_eq!(MIN_PERSPECTIVE_FOV, 0.05f32.to_bits());
    assert_eq!(MAX_PERSPECTIVE_FOV, (std::f32::consts::PI - 0.05).to_bits());
    assert_eq!(MIN_ORTHOGRAPHIC_SCALE, 0.01f32.to_bits());
    let pose = TerminalCameraPose::default();
    assert_eq!((f(pose.yaw), f(pose.pitch), f(pose.roll)), (0.18, 0.08, 0.0));
    assert_eq!((f(pose.orthographic_scale), f(pose.perspective_fov)), (1.0, 1.0));
}

#[test]
fn partial_updates_preserve_omitted_pose_fields() {
    let mut slots = TerminalCameraSlots::default();
    let original = *slots.preset(3).expect("preset");
    let mut partial = update(3);
    partial.translation.x = Some(n(12.0));
    partial.rotation.y = Some(degrees(90.0));

    assert!(slots.apply_update(partial));
    let preset = slots.preset(3).expect("preset");
    assert_eq!(preset.mode, original.mode);
    let translation = preset.pose.translation;
    assert_eq!((f(translation.x), f(translation.y), f(translation.z)), (12.0, 0.0, 0.0));
    assert_eq!(f(preset.pose.yaw), std::f32::consts::FRAC_PI_2);
    assert_eq!(f(preset.pose.pitch), f(original.pose.pitch));
    assert_eq!(f(preset.pose.roll), f(original.pose.roll));
    assert_eq!(f(preset.pose.orthographic_scale), f(original.pose.orthographic_scale));
    assert_eq!(f(preset.pose.perspective_fov), f(original.pose.perspective_fov));
}

#[test]
fn protocol_axes_map_to_pitch_yaw_and_roll_in_degrees() {
    let mut slots = TerminalCameraSlots::default();
    let mut partial = update(0);
    partial.rotation =
        OptionalVec3::from([Some(degrees(10.0)), Some(degrees(20.0)), Some(degrees(30.0))]);

    assert!(slots.apply_update(partial));
    let pose = slots.active().pose;
    assert_eq!(f(pose.pitch), 10.0_f32.to_radians());
    assert_eq!(f(pose.yaw), 20.0_f32.to_radians());
    assert_eq!(f(pose.roll), 30.0_f32.to_radians());
}

#[test]
fn invalid_projection_values_do_not_replace_the_previous_value() {
    let mut slots = TerminalCameraSlots::default();
    let mut partial = update(0);
    partial.mode = Some(TerminalPresentationMode::Plane3d);
    partial.scale = Some(n(f32::from_bits(MIN_ORTHOGRAPHIC_SCALE) / 2.0));

    assert!(slots.apply_update(partial));
    assert_eq!(slots.active().mode, TerminalPresentationMode::Plane3d);
    assert_eq!(f(slots.active().pose.orthographic_scale), 1.0);

    let mut partial = update(0);
    partial.mode = Some(TerminalPresentationMode::Perspective3d);
    partial.fov = Some(n(std::f32::consts::PI));

    assert!(slots.apply_update(partial));
    assert_eq!(slots.active().mode, TerminalPresentationMode::Perspective3d);
    assert_eq!(f(slots.active().pose.perspective_fov), 1.0);
}

#[test]
fn scale_and_fov_update_their_stored_values_in_any_mode() {
    let mut slots = TerminalCameraSlots::default();
    let mut partial = update(0);
    partial.scale = Some(n(1.5));
    partial.fov = Some(n(0.9));

    assert!(slots.apply_update(partial));
    assert_eq!(slots.active().mode, TerminalPresentationMode::Flat2d);
    assert_eq!(f(slots.active().pose.orthographic_scale), 1.5);
    assert_eq!(f(slots.active().pose.perspective_fov), 0.9);

    let mut partial = update(0);
    partial.mode = Some(TerminalPresentationMode::Perspective3d);
    partial.scale = Some(n(2.0));

    assert!(slots.apply_update(partial));
    assert_eq!(f(slots.active().pose.orthographic_scale), 2.0);
    assert_eq!(f(slots.active().pose.perspective_fov), 0.9);
}

#[test]
fn fov_applies_only_inside_the_radian_clamp() {
    let least = f32::from_bits(MIN_PERSPECTIVE_FOV);
    let most = f32::from_bits(MAX_PERSPECTIVE_FOV);
    let mut slots = TerminalCameraSlots::default();
    let mut partial = update(0);
    partial.fov = Some(n(least));
    assert!(slots.apply_update(partial));
    assert_eq!(f(slots.active().pose.perspective_fov), least);

    let mut partial = update(0);
    partial.fov = Some(n(most));
    assert!(slots.apply_update(partial));
    assert_eq!(f(slots.active().pose.perspective_fov), most);

    let mut partial = update(0);
    partial.fov = Some(n(least - 0.001));
    assert!(!slots.apply_update(partial));

    let mut partial = update(0);
    partial.fov = Some(n(most + 0.001));
    assert!(!slots.apply_update(partial));
    assert_eq!(f(slots.active().pose.perspective_fov), most);
}

#[test]
fn activation_rejects_out_of_range_slots() {
    let mut slots = TerminalCameraSlots::default();
    assert!(!slots.activate(TERMINAL_CAMERA_SLOT_COUNT));
    assert_eq!(slots.active_slot(), 0);
    assert!(slots.preset(TERMINAL_CAMERA_SLOT_COUNT).is_none());
}

#[test]
fn projections_are_always_finite_and_valid() {
    let mut pose = TerminalCameraPose::default();
    for value in [f32::NAN, f32::INFINITY, -1.0, 0.0, std::f32::consts::PI] {
        pose.orthographic_scale = n(value);
        pose.perspective_fov = n(value);
        assert!(f(pose.resolved_orthographic_scale()).is_finite());
        assert!(f(pose.resolved_orthographic_scale()) > 0.0);
        assert!(f(pose.resolved_perspective_fov()).is_finite());
        assert!(f(pose.resolved_perspective_fov()) > 0.0);
        assert!(f(pose.resolved_perspective_fov()) < std::f32::consts::PI);
    }
}

#[test]
fn orthographic_zoom_does_not_change_perspective_fov() {
    let mut slots = TerminalCameraSlots::default();
    slots.active_mut().mode = TerminalPresentationMode::Plane3d;
    slots.active_mut().pose.orthographic_scale = n(4.0);
    let expected_fov = f(slots.active().pose.perspective_fov);

    slots.active_mut().mode = TerminalPresentationMode::Perspective3d;

    assert_eq!(f(slots.active().pose.perspective_fov), expected_fov);
    assert_eq!(f(slots.active().pose.resolved_perspective_fov()), 1.0);
}

#[test]
fn immediate_activation_happens_after_the_slot_update() {
    let mut camera = TerminalCamera::default();
    let mut command = update(4);
    command.activate = true;
    command.mode = Some(TerminalPresentationMode::Perspective3d);
    command.translation.z = Some(n(50.0));

    run(&mut camera, &[command]);

    assert_eq!(camera.slots.active_slot(), 4);
    assert_eq!(camera.slots.active().mode, TerminalPresentationMode::Perspective3d);
    assert_eq!(f(camera.slots.active().pose.translation.z), 50.0);
}

#[test]
fn mobius_exit_sources_are_persistent_per_slot() {
    let mut camera = TerminalCamera::default();

    let mut slot_zero = update(0);
    slot_zero.mode = Some(TerminalPresentationMode::Mobius3d);
    run(&mut camera, &[slot_zero]);

    let mut slot_one = update(1);
    slot_one.mode = Some(TerminalPresentationMode::Perspective3d);
    run(&mut camera, &[slot_one]);

    let mut slot_one = update(1);
    slot_one.activate = true;
    slot_one.mode = Some(TerminalPresentationMode::Mobius3d);
    run(&mut camera, &[slot_one]);

    activate_terminal_camera_presets(&mut camera, &[ActivateTerminalCameraPreset { slot: 0 }]);

    assert_eq!(camera.slots.active_slot(), 0);
    assert_eq!(
        camera.slots.active().mobius_source.expect("slot source").mode,
        TerminalPresentationMode::Flat2d
    );
    assert!(camera.transition.source_is_for(0));
    assert_eq!(
        camera.transition.source.expect("transition source").1.mode,
        TerminalPresentationMode::Flat2d
    );
}

#[test]
fn activating_a_mobius_slot_starts_the_enter_transition() {
    let mut camera = TerminalCamera::default();
    let mut command = update(3);
    command.activate = true;
    command.mode = Some(TerminalPresentationMode::Mobius3d);
    run(&mut camera, &[command]);
    assert!(camera.transition.active && !camera.transition.resumed);
    assert!(camera.transition.source_is_for(3));

    // Switching between two Mobius slots keeps the settled strip.
    camera.transition.stop();
    let mut other = update(5);
    other.activate = true;
    other.mode = Some(TerminalPresentationMode::Mobius3d);
    run(&mut camera, &[other]);
    assert!(!camera.transition.active);
    assert!(camera.transition.source_is_for(5));

    // A strip that moves is handed to the next Mobius slot and moves on.
    activate_terminal_camera_presets(&mut camera, &[ActivateTerminalCameraPreset { slot: 1 }]);
    assert!(!camera.transition.active);
    activate_terminal_camera_presets(&mut camera, &[ActivateTerminalCameraPreset { slot: 3 }]);
    assert!(camera.transition.active && !camera.transition.resumed);
    activate_terminal_camera_presets(&mut camera, &[ActivateTerminalCameraPreset { slot: 5 }]);
    assert!(camera.transition.active && camera.transition.resumed);
    assert!(camera.transition.source_is_for(5));
}

#[test]
fn protocol_updates_cancel_an_active_mobius_transition() {
    let mut camera = TerminalCamera::default();

    let mut enter_mobius = update(0);
    enter_mobius.mode = Some(TerminalPresentationMode::Mobius3d);
    let _ = apply_terminal_camera_updates(&mut camera, &[enter_mobius]);

    let preset = *camera.slots.active();
    let source = preset.mobius_source.expect("Mobius source");
    camera.transition.begin_enter(0, source, preset.pose);

    let mut camera_update = update(0);
    camera_update.scale = Some(n(2.0));
    let _ = apply_terminal_camera_updates(&mut camera, &[camera_update]);

    assert_eq!(f(camera.slots.active().pose.orthographic_scale), 2.0);
    assert_eq!(
        f(camera.slots.active().mobius_source.expect("Mobius source").pose.orthographic_scale),
        2.0
    );
    assert!(!camera.transition.active);
}

#[test]
fn partial_mobius_updates_preserve_omitted_source_fields() {
    let mut slots = TerminalCameraSlots::default();
    let mut source = update(0);
    source.mode = Some(TerminalPresentationMode::Plane3d);
    source.scale = Some(n(0.05));
    assert!(slots.apply_update(source));

    let mut enter_mobius = update(0);
    enter_mobius.mode = Some(TerminalPresentationMode::Mobius3d);
    assert!(slots.apply_update(enter_mobius));
    slots.active_mut().pose.orthographic_scale = n(1.0);

    let mut rotate = update(0);
    rotate.rotation.y = Some(degrees(45.0));
    assert!(slots.apply_update(rotate));

    let source = slots.active().mobius_source.expect("Mobius source");
    assert_eq!(f(source.pose.orthographic_scale), 0.05);
    assert_eq!(f(source.pose.yaw), 45.0_f32.to_radians());
}

#[test]
fn mobius_updates_compare_against_the_saved_source_pose() {
    let mut slots = TerminalCameraSlots::default();
    let mut source = update(0);
    source.mode = Some(TerminalPresentationMode::Plane3d);
    source.scale = Some(n(0.05));
    assert!(slots.apply_update(source));

    let mut enter_mobius = update(0);
    enter_mobius.mode = Some(TerminalPresentationMode::Mobius3d);
    assert!(slots.apply_update(enter_mobius));
    slots.active_mut().pose.orthographic_scale = n(1.0);

    let mut match_live_pose = update(0);
    match_live_pose.scale = Some(n(1.0));
    assert!(slots.apply_update(match_live_pose));

    let source = slots.active().mobius_source.expect("Mobius source");
    assert_eq!(f(source.pose.orthographic_scale), 1.0);
}

#[test]
fn application_updates_remain_after_user_interaction_and_slot_switches() {
    let mut slots = TerminalCameraSlots::default();
    let mut command = update(2);
    command.mode = Some(TerminalPresentationMode::Plane3d);
    command.translation.x = Some(n(25.0));
    slots.apply_update(command);
    slots.activate(2);

    let turned = f(slots.active().pose.yaw) + 0.5;
    slots.active_mut().pose.yaw = n(turned);
    let expected: TerminalCameraPreset = *slots.active();
    slots.activate(1);
    slots.activate(2);

    let active = slots.active();
    assert_eq!(active.mode, expected.mode);
    assert!(same_pose(&active.pose, &expected.pose));
    assert!(active.mobius_source.is_none() && expected.mobius_source.is_none());
}

#[test]
fn mode_changes_end_a_drag_of_the_active_slot() {
    let point = Point { x: n(10.0), y: n(20.0) };
    let mut camera = TerminalCamera::default();
    camera.interaction.rotating = true;
    camera.interaction.last_rotate_cursor = Some(point);
    let mut elsewhere = update(2);
    elsewhere.mode = Some(TerminalPresentationMode::Perspective3d);
    run(&mut camera, &[elsewhere]);
    assert!(camera.interaction.rotating);

    let mut here = update(0);
    here.mode = Some(TerminalPresentationMode::Perspective3d);
    run(&mut camera, &[here]);
    assert!(!camera.interaction.rotating);
    assert!(camera.interaction.last_rotate_cursor.is_none());
}

#[test]
fn presentations_toggle() {
    let mut presentation = TerminalPresentation { mode: TerminalPresentationMode::default() };
    presentation.toggle();
    assert_eq!(presentation.mode, TerminalPresentationMode::Plane3d);
    presentation.toggle();
    assert_eq!(presentation.mode, TerminalPresentationMode::Flat2d);
    let flat = presentation_visibility(presentation.mode);
    assert!(flat.sprite && !flat.plane);
    let strip = presentation_visibility(TerminalPresentationMode::Mobius3d);
    assert!(!strip.sprite && strip.plane);
}

#[test]
fn planes_are_made_of_triangles() {
    let indices = terminal_plane_indices(0, 2);
    assert_eq!(indices.len(), 24);
    assert_eq!(&indices[..12], &[0, 3, 1, 1, 3, 4, 1, 4, 2, 2, 4, 5]);
    assert_eq!(&indices[18..], &[4, 7, 5, 5, 7, 8]);
    assert_eq!(terminal_plane_indices(32, 20).len(), 32 * 20 * 6);
}

#[test]
fn warps_and_back_colors_stay_in_range() {
    let mut warp = TerminalPlaneWarp {
        amount: n(0.5),
        shape: TerminalSurfaceShape {
            kind: TerminalSurfaceKind::ModeDefault,
            amplitude: n(1.0),
            control_columns: 0,
            control_rows: 0,
            control_points: Vec::new(),
        },
    };
    warp.adjust(n(0.5 + 0.7));
    assert_eq!(f(warp.amount), 1.0);
    warp.adjust(n(-0.2));
    assert_eq!(f(warp.amount), 0.0);
    warp.adjust(n(0.25));
    assert_eq!(f(warp.amount), 0.25);
    assert_eq!(back_color([31, 5, 2]), [18, 0, 0, 255]);
}
