//! Camera presets, updates to them, and their activation.

use crate::number::{Number, Point, ONE, ZERO};
use crate::scene::TerminalPresentationMode;
use vstd::prelude::*;
use vstd::std_specs::convert::FromSpecImpl;

verus! {

/// Number of addressable camera presets.
pub const TERMINAL_CAMERA_SLOT_COUNT: usize = 10;
/// The bits of 0.05, the smallest valid perspective field of view in radians.
pub const MIN_PERSPECTIVE_FOV: u32 = 0x3d4c_cccd;
/// The bits of pi less 0.05, the largest valid perspective field of view.
pub const MAX_PERSPECTIVE_FOV: u32 = 0x4045_dca8;
/// The bits of 0.01, the smallest valid orthographic projection scale.
pub const MIN_ORTHOGRAPHIC_SCALE: u32 = 0x3c23_d70a;
/// The bits of pi.
pub const PI: u32 = 0x4049_0fdb;
/// The bits of 0.18, the yaw of a new pose.
pub const DEFAULT_YAW: u32 = 0x3e38_51ec;
/// The bits of 0.08, the pitch of a new pose.
pub const DEFAULT_PITCH: u32 = 0x3da3_d70a;

/// Three components.
#[derive(Clone, Copy, Debug)]
pub struct Vec3 {
    pub x: Number,
    pub y: Number,
    pub z: Number,
}

impl Vec3 {
    pub open spec fn equals(self, other: Vec3) -> bool {
        self.x.equals(other.x) && self.y.equals(other.y) && self.z.equals(other.z)
    }

    pub fn same(self, other: Vec3) -> (r: bool)
        ensures
            r == self.equals(other),
    {
        self.x.same(other.x) && self.y.same(other.y) && self.z.same(other.z)
    }
}

/// Persistent pose for a camera preset.
#[derive(Clone, Copy, Debug)]
pub struct TerminalCameraPose {
    /// Rotation around the vertical axis, in radians.
    pub yaw: Number,
    /// Rotation around the horizontal axis, in radians.
    pub pitch: Number,
    /// Rotation around the view axis, in radians.
    pub roll: Number,
    /// Orthographic projection scale.
    pub orthographic_scale: Number,
    /// Perspective vertical field of view in radians.
    pub perspective_fov: Number,
    /// Camera translation relative to its default position.
    pub translation: Vec3,
}

impl Default for TerminalCameraPose {
    fn default() -> (r: Self)
        ensures
            r == default_pose(),
    {
        TerminalCameraPose {
            yaw: Number { bits: DEFAULT_YAW },
            pitch: Number { bits: DEFAULT_PITCH },
            roll: Number { bits: ZERO },
            orthographic_scale: Number { bits: ONE },
            perspective_fov: Number { bits: ONE },
            translation: Vec3 {
                x: Number { bits: ZERO },
                y: Number { bits: ZERO },
                z: Number { bits: ZERO },
            },
        }
    }
}

pub open spec fn default_pose() -> TerminalCameraPose {
    TerminalCameraPose {
        yaw: Number { bits: DEFAULT_YAW },
        pitch: Number { bits: DEFAULT_PITCH },
        roll: Number { bits: ZERO },
        orthographic_scale: Number { bits: ONE },
        perspective_fov: Number { bits: ONE },
        translation: Vec3 {
            x: Number { bits: ZERO },
            y: Number { bits: ZERO },
            z: Number { bits: ZERO },
        },
    }
}

/// The component that an update asks for, or the one so far.
pub open spec fn component(wanted: Option<Number>, so_far: Number) -> Number {
    match wanted {
        Some(value) => value,
        None => so_far,
    }
}

impl TerminalCameraPose {
    pub open spec fn equals(self, other: TerminalCameraPose) -> bool {
        &&& self.yaw.equals(other.yaw)
        &&& self.pitch.equals(other.pitch)
        &&& self.roll.equals(other.roll)
        &&& self.orthographic_scale.equals(other.orthographic_scale)
        &&& self.perspective_fov.equals(other.perspective_fov)
        &&& self.translation.equals(other.translation)
    }

    pub fn same(self, other: TerminalCameraPose) -> (r: bool)
        ensures
            r == self.equals(other),
    {
        self.yaw.same(other.yaw) && self.pitch.same(other.pitch) && self.roll.same(other.roll)
            && self.orthographic_scale.same(other.orthographic_scale) && self.perspective_fov.same(
            other.perspective_fov,
        ) && self.translation.same(other.translation)
    }

    /// Returns a finite, positive orthographic scale.
    pub fn resolved_orthographic_scale(self) -> (r: Number)
        ensures
            r == (if !self.orthographic_scale.finite() {
                Number { bits: ONE }
            } else if self.orthographic_scale.reaches(Number { bits: MIN_ORTHOGRAPHIC_SCALE }) {
                self.orthographic_scale
            } else {
                Number { bits: MIN_ORTHOGRAPHIC_SCALE }
            }),
            r.finite(),
            r.positive(),
    {
        let least = Number { bits: MIN_ORTHOGRAPHIC_SCALE };
        if !self.orthographic_scale.is_finite() {
            Number { bits: ONE }
        } else if self.orthographic_scale.at_least(least) {
            self.orthographic_scale
        } else {
            least
        }
    }

    /// Returns a finite perspective field of view away from zero and pi.
    pub fn resolved_perspective_fov(self) -> (r: Number)
        ensures
            r == (if !self.perspective_fov.finite() {
                Number { bits: ONE }
            } else {
                self.perspective_fov.clamped(
                    Number { bits: MIN_PERSPECTIVE_FOV },
                    Number { bits: MAX_PERSPECTIVE_FOV },
                )
            }),
            r.finite(),
            r.positive(),
            r.rank() < (Number { bits: PI }).rank(),
    {
        if !self.perspective_fov.is_finite() {
            Number { bits: ONE }
        } else {
            self.perspective_fov.clamp(
                Number { bits: MIN_PERSPECTIVE_FOV },
                Number { bits: MAX_PERSPECTIVE_FOV },
            )
        }
    }

    /// The pose with what an update changes. A scale or a field of view out of
    /// range changes nothing.
    pub open spec fn updated(self, update: TerminalCameraUpdate) -> TerminalCameraPose {
        TerminalCameraPose {
            yaw: component(update.rotation.y, self.yaw),
            pitch: component(update.rotation.x, self.pitch),
            roll: component(update.rotation.z, self.roll),
            orthographic_scale: match update.scale {
                Some(value) if value.reaches(Number { bits: MIN_ORTHOGRAPHIC_SCALE }) => value,
                _ => self.orthographic_scale,
            },
            perspective_fov: match update.fov {
                Some(value) if value.between(
                    Number { bits: MIN_PERSPECTIVE_FOV },
                    Number { bits: MAX_PERSPECTIVE_FOV },
                ) => value,
                _ => self.perspective_fov,
            },
            translation: Vec3 {
                x: component(update.translation.x, self.translation.x),
                y: component(update.translation.y, self.translation.y),
                z: component(update.translation.z, self.translation.z),
            },
        }
    }
}

/// Changes a pose as an update asks.
pub fn apply_pose_update(pose: &mut TerminalCameraPose, update: TerminalCameraUpdate)
    ensures
        *final(pose) == old(pose).updated(update),
{
    if let Some(value) = update.translation.x {
        pose.translation.x = value;
    }
    if let Some(value) = update.translation.y {
        pose.translation.y = value;
    }
    if let Some(value) = update.translation.z {
        pose.translation.z = value;
    }
    if let Some(value) = update.rotation.x {
        pose.pitch = value;
    }
    if let Some(value) = update.rotation.y {
        pose.yaw = value;
    }
    if let Some(value) = update.rotation.z {
        pose.roll = value;
    }
    if let Some(value) = update.scale {
        if value.at_least(Number { bits: MIN_ORTHOGRAPHIC_SCALE }) {
            pose.orthographic_scale = value;
        }
    }
    if let Some(value) = update.fov {
        if value.within(
            Number { bits: MIN_PERSPECTIVE_FOV },
            Number { bits: MAX_PERSPECTIVE_FOV },
        ) {
            pose.perspective_fov = value;
        }
    }
}

/// State saved before a preset enters Mobius mode.
#[derive(Clone, Copy, Debug)]
pub struct TerminalMobiusSource {
    /// Presentation mode restored after the exit transition.
    pub mode: TerminalPresentationMode,
    /// Camera pose restored after the exit transition.
    pub pose: TerminalCameraPose,
}

impl TerminalMobiusSource {
    pub open spec fn equals(self, other: TerminalMobiusSource) -> bool {
        self.mode == other.mode && self.pose.equals(other.pose)
    }
}

/// Presentation mode and pose stored in one camera slot.
#[derive(Clone, Copy, Debug)]
pub struct TerminalCameraPreset {
    /// Presentation mode selected by the preset.
    pub mode: TerminalPresentationMode,
    /// Persistent camera pose selected by the preset.
    pub pose: TerminalCameraPose,
    /// Presentation state restored when leaving Mobius mode.
    pub mobius_source: Option<TerminalMobiusSource>,
}

pub open spec fn default_preset() -> TerminalCameraPreset {
    TerminalCameraPreset {
        mode: TerminalPresentationMode::Flat2d,
        pose: default_pose(),
        mobius_source: None,
    }
}

impl Default for TerminalCameraPreset {
    fn default() -> (r: Self)
        ensures
            r == default_preset(),
    {
        TerminalCameraPreset {
            mode: TerminalPresentationMode::Flat2d,
            pose: TerminalCameraPose::default(),
            mobius_source: None,
        }
    }
}

impl TerminalCameraPreset {
    pub open spec fn equals(self, other: TerminalCameraPreset) -> bool {
        &&& self.mode == other.mode
        &&& self.pose.equals(other.pose)
        &&& match (self.mobius_source, other.mobius_source) {
            (Some(a), Some(b)) => a.equals(b),
            (None, None) => true,
            _ => false,
        }
    }

    fn same(self, other: TerminalCameraPreset) -> (r: bool)
        ensures
            r == self.equals(other),
    {
        self.mode == other.mode && self.pose.same(other.pose) && match (
            self.mobius_source,
            other.mobius_source,
        ) {
            (Some(a), Some(b)) => a.mode == b.mode && a.pose.same(b.pose),
            (None, None) => true,
            _ => false,
        }
    }

    /// What leaving Mobius mode goes back to.
    pub open spec fn exit(self) -> TerminalMobiusSource {
        match self.mobius_source {
            Some(source) => source,
            None => TerminalMobiusSource {
                mode: TerminalPresentationMode::Plane3d,
                pose: self.pose,
            },
        }
    }

    /// What leaving Mobius mode goes back to: the state that was saved, or the
    /// plane in the pose of the preset.
    pub fn exit_source(self) -> (r: TerminalMobiusSource)
        ensures
            r == self.exit(),
    {
        match self.mobius_source {
            Some(source) => source,
            None => TerminalMobiusSource {
                mode: TerminalPresentationMode::Plane3d,
                pose: self.pose,
            },
        }
    }

    /// The state to save for leaving Mobius mode, once an update was made.
    pub open spec fn updated_source(self, update: TerminalCameraUpdate) -> Option<
        TerminalMobiusSource,
    > {
        let mode = match update.mode {
            Some(mode) => mode,
            None => self.mode,
        };
        let pose = self.pose.updated(update);
        if mode != TerminalPresentationMode::Mobius3d {
            None
        } else if mode != self.mode {
            Some(TerminalMobiusSource { mode: self.mode, pose })
        } else {
            let source = TerminalMobiusSource {
                mode: self.exit().mode,
                pose: self.exit().pose.updated(update),
            };
            if !pose.equals(self.pose) || !source.equals(self.exit()) {
                Some(source)
            } else {
                self.mobius_source
            }
        }
    }

    /// The preset with what an update changes.
    pub open spec fn updated(self, update: TerminalCameraUpdate) -> TerminalCameraPreset {
        TerminalCameraPreset {
            mode: match update.mode {
                Some(mode) => mode,
                None => self.mode,
            },
            pose: self.pose.updated(update),
            mobius_source: self.updated_source(update),
        }
    }
}

/// Optional vector components in a partial camera update.
#[derive(Clone, Copy, Debug)]
pub struct OptionalVec3 {
    /// Optional X component.
    pub x: Option<Number>,
    /// Optional Y component.
    pub y: Option<Number>,
    /// Optional Z component.
    pub z: Option<Number>,
}

impl Default for OptionalVec3 {
    fn default() -> (r: Self)
        ensures
            r == (OptionalVec3 { x: None, y: None, z: None }),
    {
        OptionalVec3 { x: None, y: None, z: None }
    }
}

impl From<[Option<Number>; 3]> for OptionalVec3 {
    fn from(value: [Option<Number>; 3]) -> (r: Self) {
        OptionalVec3 { x: value[0], y: value[1], z: value[2] }
    }
}

impl FromSpecImpl<[Option<Number>; 3]> for OptionalVec3 {
    open spec fn obeys_from_spec() -> bool {
        true
    }

    open spec fn from_spec(value: [Option<Number>; 3]) -> Self {
        OptionalVec3 { x: value@[0], y: value@[1], z: value@[2] }
    }
}

/// A partial camera update.
#[derive(Clone, Copy, Debug)]
pub struct TerminalCameraUpdate {
    /// Slot to update.
    pub slot: usize,
    /// Whether to activate the slot after applying the update.
    pub activate: bool,
    /// Optional presentation mode.
    pub mode: Option<TerminalPresentationMode>,
    /// Optional orthographic scale; ignored below [`MIN_ORTHOGRAPHIC_SCALE`].
    pub scale: Option<Number>,
    /// Optional perspective field of view in radians, ignored outside
    /// [`MIN_PERSPECTIVE_FOV`] to [`MAX_PERSPECTIVE_FOV`].
    pub fov: Option<Number>,
    /// Optional translation components.
    pub translation: OptionalVec3,
    /// Optional rotation components in radians: pitch, yaw and roll.
    pub rotation: OptionalVec3,
}

/// Request to activate one of the camera presets.
#[derive(Clone, Copy, Debug, PartialEq, Eq, Structural)]
pub struct ActivateTerminalCameraPreset {
    /// Slot to activate.
    pub slot: usize,
}

/// The persistent camera presets and the active slot.
#[derive(Debug)]
pub struct TerminalCameraSlots {
    presets: Vec<TerminalCameraPreset>,
    active_slot: usize,
}

/// The presets by slot and which of them is active.
pub struct SlotsModel {
    pub presets: Seq<TerminalCameraPreset>,
    pub active: int,
}

impl SlotsModel {
    pub open spec fn wf(self) -> bool {
        self.presets.len() == TERMINAL_CAMERA_SLOT_COUNT && 0 <= self.active
            < TERMINAL_CAMERA_SLOT_COUNT
    }

    pub open spec fn current(self) -> TerminalCameraPreset {
        self.presets[self.active]
    }

    /// Whether an update changes the preset of its slot.
    pub open spec fn changes(self, update: TerminalCameraUpdate) -> bool {
        update.slot < self.presets.len() && !self.presets[update.slot as int].updated(
            update,
        ).equals(self.presets[update.slot as int])
    }

    /// The slots after an update; one that changes nothing leaves them alone.
    pub open spec fn updated(self, update: TerminalCameraUpdate) -> SlotsModel {
        if self.changes(update) {
            SlotsModel {
                presets: self.presets.update(
                    update.slot as int,
                    self.presets[update.slot as int].updated(update),
                ),
                ..self
            }
        } else {
            self
        }
    }

    /// Whether activating a slot changes the active one.
    pub open spec fn switches(self, slot: usize) -> bool {
        slot < TERMINAL_CAMERA_SLOT_COUNT && slot != self.active
    }

    pub open spec fn activated(self, slot: usize) -> SlotsModel {
        if self.switches(slot) {
            SlotsModel { active: slot as int, ..self }
        } else {
            self
        }
    }
}

impl View for TerminalCameraSlots {
    type V = SlotsModel;

    closed spec fn view(&self) -> SlotsModel {
        SlotsModel { presets: self.presets@, active: self.active_slot as int }
    }
}

impl Default for TerminalCameraSlots {
    fn default() -> (r: Self)
        ensures
            r@.wf(),
            r@.active == 0,
            forall|i: int|
                0 <= i < TERMINAL_CAMERA_SLOT_COUNT ==> #[trigger] r@.presets[i]
                    == default_preset(),
    {
        let mut presets: Vec<TerminalCameraPreset> = Vec::new();
        let mut i: usize = 0;
        while i < TERMINAL_CAMERA_SLOT_COUNT
            invariant
                presets@.len() == i <= TERMINAL_CAMERA_SLOT_COUNT,
                forall|k: int| 0 <= k < i ==> #[trigger] presets@[k] == default_preset(),
            decreases TERMINAL_CAMERA_SLOT_COUNT - i,
        {
            presets.push(TerminalCameraPreset::default());
            i = i + 1;
        }
        TerminalCameraSlots { presets, active_slot: 0 }
    }
}

impl TerminalCameraSlots {
    /// Returns the active slot index.
    pub fn active_slot(&self) -> (r: usize)
        ensures
            r == self@.active,
    {
        self.active_slot
    }

    /// Returns the active preset.
    pub fn active(&self) -> (r: &TerminalCameraPreset)
        requires
            self@.wf(),
        ensures
            *r == self@.current(),
    {
        &self.presets[self.active_slot]
    }

    /// Returns the active preset for a user interaction update.
    pub fn active_mut(&mut self) -> (r: &mut TerminalCameraPreset)
        requires
            old(self)@.wf(),
        ensures
            *r == old(self)@.current(),
            final(self)@ == (SlotsModel {
                presets: old(self)@.presets.update(old(self)@.active, *final(r)),
                ..old(self)@
            }),
    {
        &mut self.presets[self.active_slot]
    }

    /// Returns a preset by slot index.
    pub fn preset(&self, slot: usize) -> (r: Option<&TerminalCameraPreset>)
        ensures
            match r {
                Some(preset) => slot < self@.presets.len() && *preset == self@.presets[slot as int],
                None => slot >= self@.presets.len(),
            },
    {
        if slot < self.presets.len() {
            Some(&self.presets[slot])
        } else {
            None
        }
    }

    /// Activates a preset, returning whether the active slot changed.
    pub fn activate(&mut self, slot: usize) -> (r: bool)
        requires
            old(self)@.wf(),
        ensures
            r == old(self)@.switches(slot),
            final(self)@ == old(self)@.activated(slot),
            final(self)@.wf(),
    {
        if slot >= TERMINAL_CAMERA_SLOT_COUNT || self.active_slot == slot {
            return false;
        }
        self.active_slot = slot;
        true
    }

    /// The preset of an update's slot as the update changes it; nothing where the
    /// slot does not exist or nothing changes.
    pub fn updated_preset(&self, update: TerminalCameraUpdate) -> (r: Option<TerminalCameraPreset>)
        ensures
            match r {
                Some(next) => self@.changes(update) && next
                    == self@.presets[update.slot as int].updated(update),
                None => !self@.changes(update),
            },
    {
        if update.slot >= self.presets.len() {
            return None;
        }
        let current = self.presets[update.slot];
        let mut next = current;
        if let Some(mode) = update.mode {
            next.mode = mode;
        }
        apply_pose_update(&mut next.pose, update);
        let mode_changed = next.mode != current.mode;
        let pose_changed = !next.pose.same(current.pose);
        if next.mode == TerminalPresentationMode::Mobius3d {
            if mode_changed {
                next.mobius_source =
                Some(TerminalMobiusSource { mode: current.mode, pose: next.pose });
            } else {
                let source = current.exit_source();
                let mut updated_source = source;
                apply_pose_update(&mut updated_source.pose, update);
                if pose_changed || !updated_source.pose.same(source.pose) {
                    next.mobius_source = Some(updated_source);
                }
            }
        } else {
            next.mobius_source = None;
        }
        if next.same(current) {
            return None;
        }
        Some(next)
    }

    /// Changes a preset, and says whether anything changed.
    pub fn apply_update(&mut self, update: TerminalCameraUpdate) -> (r: bool)
        ensures
            r == old(self)@.changes(update),
            final(self)@ == old(self)@.updated(update),
    {
        match self.updated_preset(update) {
            Some(next) => {
                self.presets[update.slot] = next;
                true
            },
            None => false,
        }
    }
}

/// Transient mouse interaction state, kept outside persistent presets.
#[derive(Clone, Copy, Debug)]
pub struct TerminalCameraInteraction {
    /// Indicates an active rotation drag.
    pub rotating: bool,
    /// Indicates an active panning drag.
    pub panning: bool,
    /// Previous cursor position during rotation.
    pub last_rotate_cursor: Option<Point>,
    /// Previous cursor position during panning.
    pub last_pan_cursor: Option<Point>,
}

pub open spec fn no_interaction() -> TerminalCameraInteraction {
    TerminalCameraInteraction {
        rotating: false,
        panning: false,
        last_rotate_cursor: None,
        last_pan_cursor: None,
    }
}

impl Default for TerminalCameraInteraction {
    fn default() -> (r: Self)
        ensures
            r == no_interaction(),
    {
        TerminalCameraInteraction {
            rotating: false,
            panning: false,
            last_rotate_cursor: None,
            last_pan_cursor: None,
        }
    }
}

impl TerminalCameraInteraction {
    /// Clears transient drag state after a mode or slot transition.
    pub fn reset(&mut self)
        ensures
            *final(self) == no_interaction(),
    {
        self.rotating = false;
        self.panning = false;
        self.last_rotate_cursor = None;
        self.last_pan_cursor = None;
    }
}

/// The transition of the terminal into a Mobius strip, without its timing.
#[derive(Clone, Copy, Debug)]
pub struct MobiusTransition {
    /// Whether the strip is moving.
    pub active: bool,
    /// Whether the movement goes on from what is displayed.
    pub resumed: bool,
    /// The slot that owns the strip, and what leaving it goes back to.
    pub source: Option<(usize, TerminalMobiusSource)>,
    /// The pose that the movement ends in.
    pub target: TerminalCameraPose,
}

impl MobiusTransition {
    pub open spec fn stopped(self) -> MobiusTransition {
        MobiusTransition { active: false, resumed: false, ..self }
    }

    pub open spec fn prepared(self, slot: usize, source: TerminalMobiusSource) -> MobiusTransition {
        MobiusTransition { source: Some((slot, source)), ..self }
    }

    pub open spec fn entering(
        self,
        slot: usize,
        source: TerminalMobiusSource,
        target: TerminalCameraPose,
    ) -> MobiusTransition {
        MobiusTransition {
            active: true,
            resumed: self.active,
            source: Some((slot, source)),
            target,
        }
    }

    /// Ends the movement.
    pub fn stop(&mut self)
        ensures
            *final(self) == old(self).stopped(),
    {
        self.active = false;
        self.resumed = false;
    }

    /// Gives the strip to a slot.
    pub fn prepare_source(&mut self, slot: usize, source: TerminalMobiusSource)
        ensures
            *final(self) == old(self).prepared(slot, source),
    {
        self.source = Some((slot, source));
    }

    /// Starts the movement for a slot. A strip that moves already moves on from
    /// where it is.
    pub fn begin_enter(
        &mut self,
        slot: usize,
        source: TerminalMobiusSource,
        target: TerminalCameraPose,
    )
        ensures
            *final(self) == old(self).entering(slot, source, target),
    {
        self.resumed = self.active;
        self.active = true;
        self.source = Some((slot, source));
        self.target = target;
    }

    pub open spec fn belongs_to(self, slot: usize) -> bool {
        self.source matches Some((owner, _)) && owner == slot
    }

    /// Whether a slot owns the strip.
    pub fn source_is_for(&self, slot: usize) -> (r: bool)
        ensures
            r == self.belongs_to(slot),
    {
        match self.source {
            Some((owner, _)) => owner == slot,
            None => false,
        }
    }
}

impl Default for MobiusTransition {
    fn default() -> (r: Self)
        ensures
            r == (MobiusTransition {
                active: false,
                resumed: false,
                source: None,
                target: default_pose(),
            }),
    {
        MobiusTransition {
            active: false,
            resumed: false,
            source: None,
            target: TerminalCameraPose::default(),
        }
    }
}

/// The presets with what goes on around them.
#[derive(Debug)]
pub struct TerminalCamera {
    pub slots: TerminalCameraSlots,
    pub interaction: TerminalCameraInteraction,
    pub transition: MobiusTransition,
}

pub struct CameraModel {
    pub slots: SlotsModel,
    pub interaction: TerminalCameraInteraction,
    pub transition: MobiusTransition,
}

impl View for TerminalCamera {
    type V = CameraModel;

    open spec fn view(&self) -> CameraModel {
        CameraModel {
            slots: self.slots@,
            interaction: self.interaction,
            transition: self.transition,
        }
    }
}

impl Default for TerminalCamera {
    fn default() -> (r: Self)
        ensures
            r@.slots.wf(),
            r@.slots.active == 0,
            forall|i: int|
                0 <= i < TERMINAL_CAMERA_SLOT_COUNT ==> #[trigger] r@.slots.presets[i]
                    == default_preset(),
            r@.interaction == no_interaction(),
            !r@.transition.active,
            r@.transition.source is None,
    {
        TerminalCamera {
            slots: TerminalCameraSlots::default(),
            interaction: TerminalCameraInteraction::default(),
            transition: MobiusTransition::default(),
        }
    }
}

impl CameraModel {
    /// The transition after an update of the preset that is shown, or about to be.
    pub open spec fn transition_after(self, update: TerminalCameraUpdate) -> MobiusTransition {
        let previous = self.slots.presets[update.slot as int];
        let next = previous.updated(update);
        let shown = update.slot == self.slots.active;
        if !self.slots.changes(update) || !(shown || update.activate) {
            self.transition
        } else if next.mode != TerminalPresentationMode::Mobius3d {
            self.transition.stopped()
        } else if next.mode != previous.mode && shown {
            self.transition.stopped().entering(update.slot, next.exit(), next.pose)
        } else {
            self.transition.stopped().prepared(update.slot, next.exit())
        }
    }

    pub open spec fn updated(self, update: TerminalCameraUpdate) -> CameraModel {
        let shown = update.slot == self.slots.active;
        CameraModel {
            slots: self.slots.updated(update),
            interaction: if self.slots.changes(update) && shown
                && self.slots.presets[update.slot as int].updated(update).mode
                != self.slots.presets[update.slot as int].mode {
                no_interaction()
            } else {
                self.interaction
            },
            transition: self.transition_after(update),
        }
    }

    pub open spec fn all_updated(self, updates: Seq<TerminalCameraUpdate>) -> CameraModel
        decreases updates.len(),
    {
        if updates.len() == 0 {
            self
        } else {
            self.all_updated(updates.drop_last()).updated(updates.last())
        }
    }

    /// The camera after a slot was activated. The strip of a Mobius preset comes up,
    /// unless one stands already; one that moves is handed over.
    pub open spec fn activated(self, slot: usize) -> CameraModel {
        let was_mobius = self.slots.current().mode == TerminalPresentationMode::Mobius3d;
        let next = self.slots.activated(slot);
        let preset = next.current();
        if !self.slots.switches(slot) {
            self
        } else if preset.mode != TerminalPresentationMode::Mobius3d {
            CameraModel {
                slots: next,
                interaction: no_interaction(),
                transition: self.transition.stopped(),
            }
        } else {
            let source = preset.exit();
            CameraModel {
                slots: SlotsModel {
                    presets: next.presets.update(
                        next.active,
                        TerminalCameraPreset { mobius_source: Some(source), ..preset },
                    ),
                    ..next
                },
                interaction: no_interaction(),
                transition: if was_mobius && !self.transition.active {
                    self.transition.stopped().prepared(slot, source)
                } else if was_mobius {
                    self.transition.entering(slot, source, preset.pose)
                } else {
                    self.transition.stopped().entering(slot, source, preset.pose)
                },
            }
        }
    }

    pub open spec fn all_activated(
        self,
        activations: Seq<ActivateTerminalCameraPreset>,
    ) -> CameraModel
        decreases activations.len(),
    {
        if activations.len() == 0 {
            self
        } else {
            self.all_activated(activations.drop_last()).activated(activations.last().slot)
        }
    }
}

/// The activations that updates ask for, in order.
pub open spec fn requested(updates: Seq<TerminalCameraUpdate>) -> Seq<ActivateTerminalCameraPreset>
    decreases updates.len(),
{
    if updates.len() == 0 {
        Seq::empty()
    } else if updates.last().activate {
        requested(updates.drop_last()).push(
            ActivateTerminalCameraPreset { slot: updates.last().slot },
        )
    } else {
        requested(updates.drop_last())
    }
}

impl TerminalCamera {
    /// Changes a preset and what depends on it.
    fn apply_update(&mut self, update: TerminalCameraUpdate)
        requires
            old(self)@.slots.wf(),
        ensures
            final(self)@ == old(self)@.updated(update),
            final(self)@.slots.wf(),
    {
        let previous = match self.slots.preset(update.slot) {
            Some(preset) => *preset,
            None => {
                return ;
            },
        };
        if !self.slots.apply_update(update) {
            return ;
        }
        let shown = update.slot == self.slots.active_slot();
        let next = match self.slots.preset(update.slot) {
            Some(preset) => *preset,
            None => {
                return ;
            },
        };
        let mode_changed = next.mode != previous.mode;
        if shown || update.activate {
            self.transition.stop();
            if next.mode == TerminalPresentationMode::Mobius3d {
                let source = next.exit_source();
                if mode_changed && shown {
                    self.transition.begin_enter(update.slot, source, next.pose);
                } else {
                    self.transition.prepare_source(update.slot, source);
                }
            }
        }
        if mode_changed && shown {
            self.interaction.reset();
        }
    }

    /// Activates a preset and starts, ends or hands over its strip.
    fn activate(&mut self, slot: usize)
        requires
            old(self)@.slots.wf(),
        ensures
            final(self)@ == old(self)@.activated(slot),
            final(self)@.slots.wf(),
    {
        let was_mobius = self.slots.active().mode == TerminalPresentationMode::Mobius3d;
        let in_flight = was_mobius && self.transition.active;
        if !self.slots.activate(slot) {
            return ;
        }
        self.interaction.reset();
        if self.slots.active().mode != TerminalPresentationMode::Mobius3d {
            self.transition.stop();
            return ;
        }
        let preset = *self.slots.active();
        let source = preset.exit_source();
        if preset.mobius_source.is_none() {
            self.slots.active_mut().mobius_source = Some(source);
        }
        if was_mobius && !in_flight {
            self.transition.stop();
            self.transition.prepare_source(slot, source);
        } else if in_flight {
            self.transition.prepare_source(slot, source);
            self.transition.begin_enter(slot, source, preset.pose);
        } else {
            self.transition.stop();
            self.transition.begin_enter(slot, source, preset.pose);
        }
        assert(self@.slots.presets =~= old(self)@.activated(slot).slots.presets);
    }
}

/// Applies partial updates in order, and returns the activations that they ask
/// for.
pub fn apply_terminal_camera_updates(
    camera: &mut TerminalCamera,
    updates: &[TerminalCameraUpdate],
) -> (activations: Vec<ActivateTerminalCameraPreset>)
    requires
        old(camera)@.slots.wf(),
    ensures
        final(camera)@ == old(camera)@.all_updated(updates@),
        final(camera)@.slots.wf(),
        activations@ == requested(updates@),
{
    let mut activations: Vec<ActivateTerminalCameraPreset> = Vec::new();
    let mut i: usize = 0;
    assert(updates@.take(0) =~= Seq::<TerminalCameraUpdate>::empty());
    while i < updates.len()
        invariant
            i <= updates@.len(),
            camera@ == old(camera)@.all_updated(updates@.take(i as int)),
            camera@.slots.wf(),
            activations@ == requested(updates@.take(i as int)),
        decreases updates@.len() - i,
    {
        let update = updates[i];
        assert(updates@.take(i + 1).drop_last() =~= updates@.take(i as int));
        camera.apply_update(update);
        if update.activate {
            activations.push(ActivateTerminalCameraPreset { slot: update.slot });
        }
        i = i + 1;
    }
    assert(updates@.take(i as int) =~= updates@);
    activations
}

/// Activates requested presets in order.
pub fn activate_terminal_camera_presets(
    camera: &mut TerminalCamera,
    activations: &[ActivateTerminalCameraPreset],
)
    requires
        old(camera)@.slots.wf(),
    ensures
        final(camera)@ == old(camera)@.all_activated(activations@),
        final(camera)@.slots.wf(),
{
    let mut i: usize = 0;
    assert(activations@.take(0) =~= Seq::<ActivateTerminalCameraPreset>::empty());
    while i < activations.len()
        invariant
            i <= activations@.len(),
            camera@ == old(camera)@.all_activated(activations@.take(i as int)),
            camera@.slots.wf(),
        decreases activations@.len() - i,
    {
        assert(activations@.take(i + 1).drop_last() =~= activations@.take(i as int));
        camera.activate(activations[i].slot);
        i = i + 1;
    }
    assert(activations@.take(i as int) =~= activations@);
}

/// An update changes the preset of its own slot alone, and no update changes
/// which slot is active.
pub proof fn law_updates_change_one_slot(camera: CameraModel, update: TerminalCameraUpdate, i: int)
    requires
        camera.slots.wf(),
        0 <= i < TERMINAL_CAMERA_SLOT_COUNT,
        i != update.slot,
    ensures
        camera.updated(update).slots.presets[i] == camera.slots.presets[i],
        camera.updated(update).slots.active == camera.slots.active,
{
}

/// An update keeps every field of a pose that it does not ask for.
pub proof fn law_partial_updates_keep_omitted_fields(
    pose: TerminalCameraPose,
    update: TerminalCameraUpdate,
)
    ensures
        update.translation.x is None ==> pose.updated(update).translation.x == pose.translation.x,
        update.translation.y is None ==> pose.updated(update).translation.y == pose.translation.y,
        update.translation.z is None ==> pose.updated(update).translation.z == pose.translation.z,
        update.rotation.x is None ==> pose.updated(update).pitch == pose.pitch,
        update.rotation.y is None ==> pose.updated(update).yaw == pose.yaw,
        update.rotation.z is None ==> pose.updated(update).roll == pose.roll,
        update.scale is None ==> pose.updated(update).orthographic_scale
            == pose.orthographic_scale,
        update.fov is None ==> pose.updated(update).perspective_fov == pose.perspective_fov,
{
}

/// A preset outside Mobius mode has no state to go back to once it was updated.
pub proof fn law_only_mobius_presets_have_a_source(
    preset: TerminalCameraPreset,
    update: TerminalCameraUpdate,
)
    ensures
        preset.updated(update).mode != TerminalPresentationMode::Mobius3d ==> preset.updated(
            update,
        ).mobius_source is None,
        preset.updated(update).mode == TerminalPresentationMode::Mobius3d && preset.mode
            != TerminalPresentationMode::Mobius3d ==> preset.updated(update).mobius_source == Some(
            TerminalMobiusSource { mode: preset.mode, pose: preset.pose.updated(update) },
        ),
{
}

/// Switching to another slot and back shows the preset as it was left.
pub proof fn law_switching_slots_keeps_presets(slots: SlotsModel, other: usize)
    requires
        slots.wf(),
    ensures
        slots.activated(other).presets == slots.presets,
        slots.activated(other).activated(slots.active as usize) == slots,
{
}

} // verus!
