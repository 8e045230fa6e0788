//! Player dimensions shared by the level format (spawn placement) and the
//! physics, and the rule for when standing on a platform starts it.
use vstd::prelude::*;

verus! {

/// Width of the player's bounding box in pixels.
pub const PLAYER_WIDTH: u32 = 16;

/// Height of the player's bounding box in pixels.
pub const PLAYER_HEIGHT: u32 = 38;

/// Whether a player standing on a platform sets it moving: an inactive
/// platform starts once he is entirely on top of it, or as soon as it is his
/// only support; while solid ground still holds him up and he overhangs the
/// platform's edge, it stays put.
pub fn starts_platform(active: bool, fully_on_platform: bool, on_solid_ground: bool) -> (r: bool)
    ensures
        r == (!active && (fully_on_platform || !on_solid_ground)),
{
    !active && (fully_on_platform || !on_solid_ground)
}

} // verus!
