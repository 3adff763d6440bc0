//! What flies after the cursor.

use crate::number::{Number, ONE, ZERO};
use crate::runtime::texts_view;
use rand::seq::IndexedRandom;
use vstd::prelude::*;

verus! {

/// How a missile starts.
#[derive(Clone, Copy, Debug)]
pub enum InitialVelocity {
    /// In any direction.
    Random,
    /// In a direction within some degrees of that to the target.
    ConeDeg(Number),
}

/// How a missile is shown: the file of a model or of a texture.
#[derive(Debug)]
pub enum MissileModelOrTexture {
    Model(String),
    Texture(String),
}

/// What a hit does.
#[derive(Clone, Copy, Debug)]
pub enum HitBehaviour {
    /// It stays.
    Still,
    /// It moves upwards.
    FloatUp { speed: Number },
}

/// How a missile is turned, in Euler angles, and scaled.
#[derive(Clone, Copy, Debug)]
pub struct MissileVisualTransform {
    pub euler_rotation: [Number; 3],
    pub scale: Number,
}

/// How a missile flies.
#[derive(Clone, Copy, Debug)]
pub struct MissileStats {
    /// The distance at which it hits.
    pub hit_radius: Number,
    pub initial_speed: Number,
    pub max_speed: Number,
    pub max_acceleration: Number,
    pub initial_velocity: InitialVelocity,
    /// How much a hit is scaled.
    pub hit_texture_scale: Number,
}

/// The bits of 1000, 19000 and 40.
pub const INITIAL_SPEED: u32 = 0x447a_0000;
pub const MAX_SPEED: u32 = 0x4694_7000;
pub const HIT_RADIUS: u32 = 0x4220_0000;

pub open spec fn default_stats() -> MissileStats {
    MissileStats {
        hit_radius: Number { bits: HIT_RADIUS },
        initial_speed: Number { bits: INITIAL_SPEED },
        max_speed: Number { bits: MAX_SPEED },
        max_acceleration: Number { bits: MAX_SPEED },
        initial_velocity: InitialVelocity::Random,
        hit_texture_scale: Number { bits: ONE },
    }
}

impl Default for MissileStats {
    fn default() -> (r: Self)
        ensures
            r == default_stats(),
    {
        MissileStats {
            hit_radius: Number { bits: HIT_RADIUS },
            initial_speed: Number { bits: INITIAL_SPEED },
            max_speed: Number { bits: MAX_SPEED },
            max_acceleration: Number { bits: MAX_SPEED },
            initial_velocity: InitialVelocity::Random,
            hit_texture_scale: Number { bits: ONE },
        }
    }
}

/// Settings of a missile: the files that it uses, and how it behaves.
#[derive(Debug)]
pub struct MissileData {
    pub spawn_sounds: Vec<String>,
    pub hit_sounds: Vec<String>,
    pub hit_textures: Vec<String>,
    pub missile_stats: MissileStats,
    pub missile_model_or_texture: MissileModelOrTexture,
    pub missile_visual_transform: MissileVisualTransform,
    pub hit_behaviour: HitBehaviour,
}

/// Calls `choose` of `rand::seq::IndexedRandom` with the generator of the thread. It
/// gives one of the items, where there are any. Which one is up to chance. It does not
/// panic on any items, none at all included; only the generator of the thread does, where
/// the system has no randomness to seed it with.
#[verifier::external_body]
fn choose_any(items: &[String]) -> (r: Option<&String>)
    ensures
        items@.len() == 0 ==> r is None,
        items@.len() > 0 ==> r is Some,
        r matches Some(item) ==> items@.contains(*item),
{
    items.choose(&mut rand::rng())
}

impl MissileData {
    /// The sound of a missile that starts.
    pub fn get_random_sound_spawn(&self) -> (r: Option<&String>)
        ensures
            r is Some <==> self.spawn_sounds@.len() > 0,
            r matches Some(sound) ==> self.spawn_sounds@.contains(*sound),
    {
        choose_any(self.spawn_sounds.as_slice())
    }

    /// The sound of a missile that hits.
    pub fn get_random_sound_hit(&self) -> (r: Option<&String>)
        ensures
            r is Some <==> self.hit_sounds@.len() > 0,
            r matches Some(sound) ==> self.hit_sounds@.contains(*sound),
    {
        choose_any(self.hit_sounds.as_slice())
    }

    /// The texture of a hit.
    pub fn get_random_texture(&self) -> (r: Option<&String>)
        ensures
            r is Some <==> self.hit_textures@.len() > 0,
            r matches Some(texture) ==> self.hit_textures@.contains(*texture),
    {
        choose_any(self.hit_textures.as_slice())
    }
}

fn swings() -> (r: Vec<String>)
    ensures
        texts_view(r@) == seq![
            "sounds/swing_1.ogg"@,
            "sounds/swing_2.ogg"@,
            "sounds/swing_3.ogg"@,
        ],
{
    let mut r: Vec<String> = Vec::new();
    r.push("sounds/swing_1.ogg".to_string());
    r.push("sounds/swing_2.ogg".to_string());
    r.push("sounds/swing_3.ogg".to_string());
    assert(texts_view(r@) =~= seq![
        "sounds/swing_1.ogg"@,
        "sounds/swing_2.ogg"@,
        "sounds/swing_3.ogg"@,
    ]);
    r
}

fn hits() -> (r: Vec<String>)
    ensures
        texts_view(r@) == seq!["sounds/hit_1.ogg"@, "sounds/hit_2.ogg"@],
{
    let mut r: Vec<String> = Vec::new();
    r.push("sounds/hit_1.ogg".to_string());
    r.push("sounds/hit_2.ogg".to_string());
    assert(texts_view(r@) =~= seq!["sounds/hit_1.ogg"@, "sounds/hit_2.ogg"@]);
    r
}

fn numbers() -> (r: Vec<String>)
    ensures
        texts_view(r@) == seq![
            "textures/maple_1.png"@,
            "textures/maple_10.png"@,
            "textures/maple_20.png"@,
            "textures/maple_50.png"@,
            "textures/maple_70.png"@,
            "textures/maple_100.png"@,
            "textures/maple_150.png"@,
            "textures/maple_777.png"@,
        ],
{
    let mut r: Vec<String> = Vec::new();
    r.push("textures/maple_1.png".to_string());
    r.push("textures/maple_10.png".to_string());
    r.push("textures/maple_20.png".to_string());
    r.push("textures/maple_50.png".to_string());
    r.push("textures/maple_70.png".to_string());
    r.push("textures/maple_100.png".to_string());
    r.push("textures/maple_150.png".to_string());
    r.push("textures/maple_777.png".to_string());
    assert(texts_view(r@) =~= seq![
        "textures/maple_1.png"@,
        "textures/maple_10.png"@,
        "textures/maple_20.png"@,
        "textures/maple_50.png"@,
        "textures/maple_70.png"@,
        "textures/maple_100.png"@,
        "textures/maple_150.png"@,
        "textures/maple_777.png"@,
    ]);
    r
}

/// The bits of 45, 3 and 100.
pub const SWORD_TURN: u32 = 0x4234_0000;
pub const SWORD_SCALE: u32 = 0x4040_0000;
pub const FLOAT_SPEED: u32 = 0x42c8_0000;

/// The missile that follows the cursor: a sword, and numbers that float up where it
/// hits.
pub fn cursor_missile() -> (r: MissileData)
    ensures
        texts_view(r.spawn_sounds@) == seq![
            "sounds/swing_1.ogg"@,
            "sounds/swing_2.ogg"@,
            "sounds/swing_3.ogg"@,
        ],
        texts_view(r.hit_sounds@) == seq!["sounds/hit_1.ogg"@, "sounds/hit_2.ogg"@],
        texts_view(r.hit_textures@) == seq![
            "textures/maple_1.png"@,
            "textures/maple_10.png"@,
            "textures/maple_20.png"@,
            "textures/maple_50.png"@,
            "textures/maple_70.png"@,
            "textures/maple_100.png"@,
            "textures/maple_150.png"@,
            "textures/maple_777.png"@,
        ],
        r.missile_stats == default_stats(),
        r.missile_model_or_texture matches MissileModelOrTexture::Texture(file) && file@
            == "textures/maple_sword.png"@,
        r.missile_visual_transform.euler_rotation@ == seq![
            Number { bits: ZERO },
            Number { bits: ZERO },
            Number { bits: SWORD_TURN },
        ],
        r.missile_visual_transform.scale == (Number { bits: SWORD_SCALE }),
        r.hit_behaviour == (HitBehaviour::FloatUp { speed: Number { bits: FLOAT_SPEED } }),
{
    let turn = [Number { bits: ZERO }, Number { bits: ZERO }, Number { bits: SWORD_TURN }];
    assert(turn@ =~= seq![
        Number { bits: ZERO },
        Number { bits: ZERO },
        Number { bits: SWORD_TURN },
    ]);
    MissileData {
        spawn_sounds: swings(),
        hit_sounds: hits(),
        hit_textures: numbers(),
        missile_stats: MissileStats::default(),
        missile_model_or_texture: MissileModelOrTexture::Texture(
            "textures/maple_sword.png".to_string(),
        ),
        missile_visual_transform: MissileVisualTransform {
            euler_rotation: turn,
            scale: Number { bits: SWORD_SCALE },
        },
        hit_behaviour: HitBehaviour::FloatUp { speed: Number { bits: FLOAT_SPEED } },
    }
}

/// Whether something that is removed after some time is due: the time that is left is
/// below zero.
pub fn removal_is_due(time_left: Number) -> (r: bool)
    ensures
        r == time_left.negative(),
{
    time_left.is_negative()
}

/// Whether a missile hits: its target is no farther than the radius of a hit.
pub fn missile_hits(distance: Number, hit_radius: Number) -> (r: bool)
    ensures
        r == hit_radius.reaches(distance),
{
    hit_radius.at_least(distance)
}

} // verus!
