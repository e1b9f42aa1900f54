//! Entity type presets: physics body types and input profiles chosen per
//! entity type in the schema editor.

use vstd::prelude::*;
use crate::ids::Uuid;

verus! {

/// Physics body type for entity colliders
#[derive(Debug, Clone, Copy, PartialEq, Eq, Structural)]
pub enum PhysicsBodyType {
    /// Affected by gravity and forces (e.g., player, crate)
    Dynamic,
    /// Moved by code, not affected by forces (e.g., moving platform)
    Kinematic,
    /// Immovable (e.g., wall, ground)
    Static,
}

impl Default for PhysicsBodyType {
    fn default() -> (r: Self)
        ensures
            r == PhysicsBodyType::Static,
    {
        PhysicsBodyType::Static
    }
}

impl PhysicsBodyType {
    /// Display name for UI
    pub fn display_name(&self) -> (r: &'static str)
        ensures
            r@ == match self {
                PhysicsBodyType::Dynamic => "Dynamic"@,
                PhysicsBodyType::Kinematic => "Kinematic"@,
                PhysicsBodyType::Static => "Static"@,
            },
    {
        match self {
            PhysicsBodyType::Dynamic => "Dynamic",
            PhysicsBodyType::Kinematic => "Kinematic",
            PhysicsBodyType::Static => "Static",
        }
    }

    /// All available body types for UI dropdowns
    pub fn all() -> (r: &'static [PhysicsBodyType])
        ensures
            r@ == seq![PhysicsBodyType::Dynamic, PhysicsBodyType::Kinematic, PhysicsBodyType::Static],
    {
        &[PhysicsBodyType::Dynamic, PhysicsBodyType::Kinematic, PhysicsBodyType::Static]
    }
}

/// Input profile presets for common game types
#[derive(Debug, Clone, PartialEq, Eq)]
pub enum InputProfile {
    /// Platformer controls: A/D for horizontal movement, Space to jump
    Platformer,
    /// Top-down 8-directional movement: WASD
    TopDown,
    /// Twin-stick: WASD move, mouse aim
    TwinStick,
    /// Custom profile defined by name (for user-provided systems)
    Custom {
        /// Name of the custom profile
        name: String,
    },
    /// No input handling (for NPCs, static objects, etc.)
    NoInput,
}

impl Default for InputProfile {
    fn default() -> (r: Self)
        ensures
            r == InputProfile::Platformer,
    {
        InputProfile::Platformer
    }
}

impl InputProfile {
    /// Display name for UI
    pub fn display_name(&self) -> (r: &'static str)
        ensures
            r@ == match self {
                InputProfile::Platformer => "Platformer"@,
                InputProfile::TopDown => "Top-Down"@,
                InputProfile::TwinStick => "Twin-Stick"@,
                InputProfile::Custom { .. } => "Custom"@,
                InputProfile::NoInput => "None"@,
            },
    {
        match self {
            InputProfile::Platformer => "Platformer",
            InputProfile::TopDown => "Top-Down",
            InputProfile::TwinStick => "Twin-Stick",
            InputProfile::Custom { .. } => "Custom",
            InputProfile::NoInput => "None",
        }
    }

    /// All available built-in profiles for UI dropdowns
    pub fn all_builtin() -> (r: &'static [InputProfile])
        ensures
            r@ == seq![
                InputProfile::Platformer,
                InputProfile::TopDown,
                InputProfile::TwinStick,
                InputProfile::NoInput,
            ],
    {
        &[InputProfile::Platformer, InputProfile::TopDown, InputProfile::TwinStick, InputProfile::NoInput]
    }

    /// Get the variant type name (for UI dropdown)
    pub fn variant_name(&self) -> (r: &'static str)
        ensures
            r@ == match self {
                InputProfile::Platformer => "platformer"@,
                InputProfile::TopDown => "topdown"@,
                InputProfile::TwinStick => "twinstick"@,
                InputProfile::Custom { .. } => "custom"@,
                InputProfile::NoInput => "none"@,
            },
    {
        match self {
            InputProfile::Platformer => "platformer",
            InputProfile::TopDown => "topdown",
            InputProfile::TwinStick => "twinstick",
            InputProfile::Custom { .. } => "custom",
            InputProfile::NoInput => "none",
        }
    }
}

/// Collider shape configuration. Sizes are in pixels, each held as the
/// IEEE 754 bit pattern of an `f32`.
#[derive(Debug, Clone, Copy, PartialEq, Eq, Structural)]
pub enum ColliderConfig {
    /// Box/rectangle collider
    Box { width: u32, height: u32 },
    /// Capsule collider (rounded ends): diameter and total height
    Capsule { width: u32, height: u32 },
    /// Circle collider
    Circle { radius: u32 },
}

/// The bits of the `f32` 16.0.
pub const SIXTEEN_F32_BITS: u32 = 0x4180_0000u32;

impl Default for ColliderConfig {
    fn default() -> (r: Self)
        ensures
            r == (ColliderConfig::Box { width: SIXTEEN_F32_BITS, height: SIXTEEN_F32_BITS }),
    {
        ColliderConfig::Box { width: SIXTEEN_F32_BITS, height: SIXTEEN_F32_BITS }
    }
}

impl ColliderConfig {
    /// Display name for UI
    pub fn display_name(&self) -> (r: &'static str)
        ensures
            r@ == match self {
                ColliderConfig::Box { .. } => "Box"@,
                ColliderConfig::Capsule { .. } => "Capsule"@,
                ColliderConfig::Circle { .. } => "Circle"@,
            },
    {
        match self {
            ColliderConfig::Box { .. } => "Box",
            ColliderConfig::Capsule { .. } => "Capsule",
            ColliderConfig::Circle { .. } => "Circle",
        }
    }

    /// Get the variant type name (for UI dropdown)
    pub fn variant_name(&self) -> (r: &'static str)
        ensures
            r@ == match self {
                ColliderConfig::Box { .. } => "box"@,
                ColliderConfig::Capsule { .. } => "capsule"@,
                ColliderConfig::Circle { .. } => "circle"@,
            },
    {
        match self {
            ColliderConfig::Box { .. } => "box",
            ColliderConfig::Capsule { .. } => "capsule",
            ColliderConfig::Circle { .. } => "circle",
        }
    }

    /// Create a new box collider with given dimensions
    pub fn new_box(width: u32, height: u32) -> (r: Self)
        ensures
            r == (ColliderConfig::Box { width, height }),
    {
        ColliderConfig::Box { width, height }
    }

    /// Create a new capsule collider with given dimensions
    pub fn new_capsule(width: u32, height: u32) -> (r: Self)
        ensures
            r == (ColliderConfig::Capsule { width, height }),
    {
        ColliderConfig::Capsule { width, height }
    }

    /// Create a new circle collider with given radius
    pub fn new_circle(radius: u32) -> (r: Self)
        ensures
            r == (ColliderConfig::Circle { radius }),
    {
        ColliderConfig::Circle { radius }
    }
}

/// Physics component configuration for an entity type. The scalar settings
/// are held as IEEE 754 bit patterns of `f32` values.
#[derive(Debug, Clone, Copy)]
pub struct PhysicsConfig {
    pub body_type: PhysicsBodyType,
    pub collider: ColliderConfig,
    pub gravity_scale: u32,
    pub lock_rotation: bool,
    pub linear_damping: u32,
    pub friction: u32,
    pub restitution: u32,
}

impl Default for PhysicsConfig {
    fn default() -> (r: Self)
        ensures
            r.body_type == PhysicsBodyType::Dynamic,
            r.collider == (ColliderConfig::Box { width: SIXTEEN_F32_BITS, height: SIXTEEN_F32_BITS }),
            r.gravity_scale == 0x3F80_0000u32,
            r.lock_rotation,
            r.linear_damping == 0,
            r.friction == 0x3F00_0000u32,
            r.restitution == 0,
    {
        PhysicsConfig {
            body_type: PhysicsBodyType::Dynamic,
            collider: ColliderConfig::default(),
            gravity_scale: 0x3F80_0000u32,
            lock_rotation: true,
            linear_damping: 0,
            friction: 0x3F00_0000u32,
            restitution: 0,
        }
    }
}

/// Input component configuration for an entity type. Speeds and forces are
/// held as IEEE 754 bit patterns of `f32` values.
#[derive(Debug, Clone)]
pub struct InputConfig {
    pub profile: InputProfile,
    pub speed: u32,
    pub jump_force: Option<u32>,
    pub max_fall_speed: Option<u32>,
    pub acceleration: u32,
    pub deceleration: u32,
}

impl Default for InputConfig {
    fn default() -> (r: Self)
        ensures
            r.profile == InputProfile::Platformer,
            r.speed == 0x4348_0000u32,
            r.jump_force == Some(0x43C8_0000u32),
            r.max_fall_speed == Some(0x4416_0000u32),
            r.acceleration == 0,
            r.deceleration == 0,
    {
        InputConfig {
            profile: InputProfile::Platformer,
            speed: 0x4348_0000u32,
            jump_force: Some(0x43C8_0000u32),
            max_fall_speed: Some(0x4416_0000u32),
            acceleration: 0,
            deceleration: 0,
        }
    }
}

impl InputConfig {
    /// Platformer preset: speed 200, jump force 400, fall speed capped at 600
    pub fn platformer() -> (r: Self)
        ensures
            r.profile == InputProfile::Platformer,
            r.speed == 0x4348_0000u32,
            r.jump_force == Some(0x43C8_0000u32),
            r.max_fall_speed == Some(0x4416_0000u32),
            r.acceleration == 0,
            r.deceleration == 0,
    {
        InputConfig::default()
    }

    /// Top-down preset: speed 200, no jumping or falling
    pub fn top_down() -> (r: Self)
        ensures
            r.profile == InputProfile::TopDown,
            r.speed == 0x4348_0000u32,
            r.jump_force is None,
            r.max_fall_speed is None,
            r.acceleration == 0,
            r.deceleration == 0,
    {
        InputConfig {
            profile: InputProfile::TopDown,
            speed: 0x4348_0000u32,
            jump_force: None,
            max_fall_speed: None,
            acceleration: 0,
            deceleration: 0,
        }
    }

    /// No input handling
    pub fn none() -> (r: Self)
        ensures
            r.profile == InputProfile::NoInput,
            r.speed == 0,
            r.jump_force is None,
            r.max_fall_speed is None,
            r.acceleration == 0,
            r.deceleration == 0,
    {
        InputConfig {
            profile: InputProfile::NoInput,
            speed: 0,
            jump_force: None,
            max_fall_speed: None,
            acceleration: 0,
            deceleration: 0,
        }
    }
}

/// Sprite/animation configuration for an entity type. The scale and offset
/// are held as IEEE 754 bit patterns of `f32` values.
#[derive(Debug, Clone)]
pub struct SpriteConfig {
    pub sprite_sheet_id: Option<Uuid>,
    pub default_animation: Option<String>,
    pub scale: Option<u32>,
    pub offset: [u32; 2],
    pub flip_with_direction: bool,
}

impl Default for SpriteConfig {
    fn default() -> (r: Self)
        ensures
            r.sprite_sheet_id is None,
            r.default_animation is None,
            r.scale is None,
            r.offset == [0u32, 0u32],
            !r.flip_with_direction,
    {
        SpriteConfig {
            sprite_sheet_id: None,
            default_animation: None,
            scale: None,
            offset: [0, 0],
            flip_with_direction: false,
        }
    }
}

impl SpriteConfig {
    /// Create a sprite config with a sprite sheet reference
    pub fn with_sprite_sheet(sprite_sheet_id: Uuid) -> (r: Self)
        ensures
            r.sprite_sheet_id == Some(sprite_sheet_id),
            r.default_animation is None,
            r.scale is None,
            r.offset == [0u32, 0u32],
            !r.flip_with_direction,
    {
        SpriteConfig {
            sprite_sheet_id: Some(sprite_sheet_id),
            default_animation: None,
            scale: None,
            offset: [0, 0],
            flip_with_direction: false,
        }
    }

    /// Set the default animation
    pub fn with_animation(self, animation: &str) -> (r: Self)
        ensures
            r.default_animation matches Some(a) && a@ == animation@,
            r.sprite_sheet_id == self.sprite_sheet_id,
            r.scale == self.scale,
            r.offset == self.offset,
            r.flip_with_direction == self.flip_with_direction,
    {
        let mut s = self;
        s.default_animation = Some(animation.to_string());
        s
    }

    /// Set the scale
    pub fn with_scale(self, scale: u32) -> (r: Self)
        ensures
            r.scale == Some(scale),
            r.sprite_sheet_id == self.sprite_sheet_id,
            r.default_animation == self.default_animation,
            r.offset == self.offset,
            r.flip_with_direction == self.flip_with_direction,
    {
        let mut s = self;
        s.scale = Some(scale);
        s
    }
}

/// Configuration for an entity type's automatic components
#[derive(Debug, Clone)]
pub struct EntityTypeConfig {
    pub physics: Option<PhysicsConfig>,
    pub input: Option<InputConfig>,
    pub sprite: Option<SpriteConfig>,
}

impl Default for EntityTypeConfig {
    fn default() -> (r: Self)
        ensures
            r.physics is None,
            r.input is None,
            r.sprite is None,
    {
        EntityTypeConfig { physics: None, input: None, sprite: None }
    }
}

impl EntityTypeConfig {
    /// Create an empty entity type config
    pub fn new() -> (r: Self)
        ensures
            r.physics is None,
            r.input is None,
            r.sprite is None,
    {
        EntityTypeConfig::default()
    }

    /// Check if any component is configured
    pub fn has_any(&self) -> (r: bool)
        ensures
            r == (self.physics is Some || self.input is Some || self.sprite is Some),
    {
        self.physics.is_some() || self.input.is_some() || self.sprite.is_some()
    }
}

/// Whether two optional texts hold the same text.
pub open spec fn same_text(a: Option<String>, b: Option<String>) -> bool {
    match (a, b) {
        (Some(x), Some(y)) => x@ == y@,
        (None, None) => true,
        _ => false,
    }
}

/// Whether two input profiles are the same profile (custom ones by name).
pub open spec fn same_profile(a: InputProfile, b: InputProfile) -> bool {
    match (a, b) {
        (InputProfile::Custom { name: x }, InputProfile::Custom { name: y }) => x@ == y@,
        (InputProfile::Custom { .. }, _) => false,
        (_, InputProfile::Custom { .. }) => false,
        _ => a == b,
    }
}

/// Whether two input configurations hold the same settings.
pub open spec fn same_input(a: InputConfig, b: InputConfig) -> bool {
    &&& same_profile(a.profile, b.profile)
    &&& a.speed == b.speed
    &&& a.jump_force == b.jump_force
    &&& a.max_fall_speed == b.max_fall_speed
    &&& a.acceleration == b.acceleration
    &&& a.deceleration == b.deceleration
}

/// Whether two sprite configurations hold the same settings.
pub open spec fn same_sprite(a: SpriteConfig, b: SpriteConfig) -> bool {
    &&& a.sprite_sheet_id == b.sprite_sheet_id
    &&& same_text(a.default_animation, b.default_animation)
    &&& a.scale == b.scale
    &&& a.offset == b.offset
    &&& a.flip_with_direction == b.flip_with_direction
}

/// Whether two entity type configurations hold the same settings.
pub open spec fn same_config(a: EntityTypeConfig, b: EntityTypeConfig) -> bool {
    &&& a.physics == b.physics
    &&& match (a.input, b.input) {
        (Some(x), Some(y)) => same_input(x, y),
        (None, None) => true,
        _ => false,
    }
    &&& match (a.sprite, b.sprite) {
        (Some(x), Some(y)) => same_sprite(x, y),
        (None, None) => true,
        _ => false,
    }
}

/// A copy of an optional text.
pub fn copy_text(t: &Option<String>) -> (r: Option<String>)
    ensures
        same_text(*t, r),
{
    match t {
        Some(s) => Some(s.clone()),
        None => None,
    }
}

impl InputProfile {
    /// A copy of the profile.
    pub fn duplicate(&self) -> (r: InputProfile)
        ensures
            same_profile(*self, r),
    {
        match self {
            InputProfile::Platformer => InputProfile::Platformer,
            InputProfile::TopDown => InputProfile::TopDown,
            InputProfile::TwinStick => InputProfile::TwinStick,
            InputProfile::Custom { name } => InputProfile::Custom { name: name.clone() },
            InputProfile::NoInput => InputProfile::NoInput,
        }
    }
}

impl InputConfig {
    /// A copy of the input settings.
    pub fn duplicate(&self) -> (r: InputConfig)
        ensures
            same_input(*self, r),
    {
        InputConfig {
            profile: self.profile.duplicate(),
            speed: self.speed,
            jump_force: self.jump_force,
            max_fall_speed: self.max_fall_speed,
            acceleration: self.acceleration,
            deceleration: self.deceleration,
        }
    }
}

impl SpriteConfig {
    /// A copy of the sprite settings.
    pub fn duplicate(&self) -> (r: SpriteConfig)
        ensures
            same_sprite(*self, r),
    {
        SpriteConfig {
            sprite_sheet_id: self.sprite_sheet_id,
            default_animation: copy_text(&self.default_animation),
            scale: self.scale,
            offset: self.offset,
            flip_with_direction: self.flip_with_direction,
        }
    }
}

impl EntityTypeConfig {
    /// A copy of the configuration.
    pub fn duplicate(&self) -> (r: EntityTypeConfig)
        ensures
            same_config(*self, r),
    {
        EntityTypeConfig {
            physics: self.physics,
            input: match &self.input {
                Some(i) => Some(i.duplicate()),
                None => None,
            },
            sprite: match &self.sprite {
                Some(s) => Some(s.duplicate()),
                None => None,
            },
        }
    }
}

} // verus!
