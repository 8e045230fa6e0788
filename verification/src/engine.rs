//! How the game moves through its levels, independent of physics and
//! rendering.
use vstd::prelude::*;

verus! {

/// What happens once the player's death animation has finished.
#[derive(Clone, Copy, PartialEq, Eq, Debug)]
pub enum OnDeath {
    /// Reset the player and the level and keep playing.
    Respawn,
    /// Stop the game (used by scripted runs).
    Stop,
}

/// The level to start on: `start`, clamped to the last of `count` levels.
/// There is no level to start on when none is given.
pub fn start_level(count: usize, start: usize) -> (r: Result<usize, String>)
    ensures
        count == 0 ==> (r matches Err(e) && e@ == "no levels given"@),
        count > 0 ==> r == Ok::<usize, String>(if start < count {
            start
        } else {
            (count - 1) as usize
        }),
{
    if count == 0 {
        return Err(String::from_str("no levels given"));
    }
    Ok(if start < count {
        start
    } else {
        count - 1
    })
}

/// The level after `current` in a sequence of `count`, looping back to the
/// first one after the last.
pub open spec fn next_level_spec(current: int, count: int) -> int {
    (current + 1) % count
}

pub fn next_level(current: usize, count: usize) -> (r: usize)
    requires
        current < count,
    ensures
        r == next_level_spec(current as int, count as int),
{
    proof {
        if current + 1 == count {
            vstd::arithmetic::div_mod::lemma_mod_self_0(count as int);
        } else {
            vstd::arithmetic::div_mod::lemma_small_mod((current + 1) as nat, count as nat);
        }
    }
    if current + 1 == count {
        0
    } else {
        current + 1
    }
}

/// `k` level completions in a row.
pub open spec fn levels_after(current: int, count: int, k: nat) -> int
    decreases k,
{
    if k == 0 {
        current
    } else {
        next_level_spec(levels_after(current, count, (k - 1) as nat), count)
    }
}

proof fn lemma_levels_after(current: int, count: int, k: nat)
    requires
        0 <= current < count,
    ensures
        levels_after(current, count, k) == (current + k) % count,
    decreases k,
{
    if k == 0 {
        vstd::arithmetic::div_mod::lemma_small_mod(current as nat, count as nat);
    } else {
        lemma_levels_after(current, count, (k - 1) as nat);
        vstd::arithmetic::div_mod::lemma_add_mod_noop(current + k - 1, 1, count);
        if count > 1 {
            vstd::arithmetic::div_mod::lemma_small_mod(1, count as nat);
        } else {
            vstd::arithmetic::div_mod::lemma_mod_self_0(1);
        }
    }
}

/// Completing every level once brings the game back to the level it
/// started from: the sequence loops.
pub proof fn law_levels_loop(current: int, count: int)
    requires
        0 <= current < count,
    ensures
        levels_after(current, count, count as nat) == current,
{
    lemma_levels_after(current, count, count as nat);
    vstd::arithmetic::div_mod::lemma_mod_add_multiples_vanish(current, count);
    vstd::arithmetic::div_mod::lemma_small_mod(current as nat, count as nat);
}

/// The camera's offset along one axis: centred on the player, but never
/// showing anything before the level's start or past its end (a level
/// smaller than the screen stays at 0).
pub open spec fn camera_axis_spec(player: int, level_px: int, screen: int) -> int {
    let max_c = if level_px - screen > 0 {
        level_px - screen
    } else {
        0
    };
    let c = player - screen / 2;
    if c < 0 {
        0
    } else if c > max_c {
        max_c
    } else {
        c
    }
}

pub fn camera_axis(player: i32, level_px: i32, screen: i32) -> (r: i32)
    requires
        screen >= 0,
        level_px >= 0,
        player >= i32::MIN + screen / 2,
    ensures
        r == camera_axis_spec(player as int, level_px as int, screen as int),
{
    let d = level_px - screen;
    let max_c = if d > 0 {
        d
    } else {
        0
    };
    let c = player - screen / 2;
    if c < 0 {
        0
    } else if c > max_c {
        max_c
    } else {
        c
    }
}

} // verus!
