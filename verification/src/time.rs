//! Frame timing limits, in whole milliseconds and pixels.
use vstd::prelude::*;

verus! {

/// Upper bound on a single frame's delta, in milliseconds: a hitch (level
/// load, dragging the window) is clamped to this instead of handing the
/// physics one enormous step.
pub const MAX_DELTA_MILLIS: u32 = 50;

/// Speed of moving platforms and path blocks, in pixels per second.
pub const PLATFORM_SPEED: u32 = 100;

/// How far (in pixels) the player's feet may be from a platform's top and
/// still ride it.
pub const PLATFORM_RIDE_TOLERANCE: u32 = 6;

/// Frames faster than this (in milliseconds) are paced by sleeping.
pub const MIN_FRAME_MILLIS: u32 = 4;

/// A platform never travels further in one (clamped) frame than a rider's
/// feet may lag behind it, so riders keep their footing through hitches.
pub proof fn law_max_delta_keeps_riders_on_platforms()
    ensures
        PLATFORM_SPEED * MAX_DELTA_MILLIS < PLATFORM_RIDE_TOLERANCE * 1000,
{
}

} // verus!
