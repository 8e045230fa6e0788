//! A small 2D platform game's rules and its level editor's logic: the
//! level file format, the playing grid, input merging, level order, sprite
//! sheet decoding, and the editor's commands, layout and editing tools.
use vstd::prelude::*;

pub mod editor;
pub mod engine;
pub mod image;
pub mod input;
pub mod layout;
pub mod level;
pub mod path_edit;
pub mod player;
pub mod roundtrip;
pub mod select;
pub mod text;
pub mod tilemap;
pub mod tiles;
pub mod time;
pub mod tools;
pub mod wellformed;

verus! {

/// Width of the game window and of the visible play area, in pixels.
pub const SCREEN_WIDTH: u32 = 800;

/// Height of the game window and of the visible play area, in pixels.
pub const SCREEN_HEIGHT: u32 = 600;

} // verus!
