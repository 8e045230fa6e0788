//! The paintable tools (tiles, spawn, eraser) and how applying one changes
//! the level. Painting keeps the level's `exit:` routing in step with its
//! exit doors, so the file stays loadable.
use vstd::prelude::*;
use crate::level::{
    decos_view, exits_view, rows_view, spawn_pixel, DecoLayer, Decoration, DecorationSpec,
    ExitDoor, ExitSpec, LevelData,
};
use crate::text::{decimal, push_decimal};
use crate::tiles;

verus! {

/// A tool the user can paint with.
#[derive(Clone, Copy, PartialEq, Eq, Debug)]
pub enum Tool {
    Erase,
    Spawn,
    Tile(u32),
}

impl Tool {
    /// The tool's label, as shown in the window title.
    pub open spec fn name_spec(self) -> Seq<char> {
        match self {
            Tool::Erase => "Erase"@,
            Tool::Spawn => "Spawn"@,
            Tool::Tile(n) => "Tile "@ + decimal(n as nat),
        }
    }

    pub fn name(self) -> (r: String)
        ensures
            r@ == self.name_spec(),
    {
        match self {
            Tool::Erase => String::from_str("Erase"),
            Tool::Spawn => String::from_str("Spawn"),
            Tool::Tile(n) => {
                let mut s = String::from_str("Tile ");
                push_decimal(&mut s, n as u64);
                s
            },
        }
    }
}

/// Set one grid cell.
pub fn set_tile(tiles: &mut Vec<Vec<u32>>, x: usize, y: usize, v: u32)
    requires
        y < old(tiles)@.len(),
        x < old(tiles)@[y as int]@.len(),
    ensures
        rows_view(final(tiles)@) == rows_view(old(tiles)@).update(
            y as int,
            rows_view(old(tiles)@)[y as int].update(x as int, v),
        ),
{
    let ghost t0 = rows_view(tiles@);
    let mut row: Vec<u32> = Vec::new();
    tiles.set_and_swap(y, &mut row);
    row.set(x, v);
    tiles.set_and_swap(y, &mut row);
    assert(rows_view(tiles@) =~= t0.update(y as int, t0[y as int].update(x as int, v)));
}

/// Whether a tile id is an exit door, normal or secret.
pub open spec fn door_tile(t: u32) -> bool {
    t == tiles::EXIT || t == tiles::SECRET_EXIT
}

/// Whether cell `c` of grid `t` holds an exit door.
pub open spec fn door_at(t: Seq<Seq<u32>>, c: (usize, usize)) -> bool {
    c.1 < t.len() && c.0 < t[c.1 as int].len() && door_tile(t[c.1 as int][c.0 as int])
}

/// Index of the first routing entry of exit list `es` at tile `c`, from `i` on.
pub open spec fn exit_index_from(es: Seq<ExitSpec>, c: (usize, usize), i: int) -> Option<int>
    decreases es.len() - i,
{
    if i < 0 || i >= es.len() {
        None
    } else if es[i].tile == c {
        Some(i)
    } else {
        exit_index_from(es, c, i + 1)
    }
}

/// The exit routing after reconciling cell `c` with grid `t`: a door with no
/// entry gets one leading to `dest`; a non-door cell loses its (first) entry;
/// otherwise nothing changes.
pub open spec fn reconciled(
    es: Seq<ExitSpec>,
    t: Seq<Seq<u32>>,
    c: (usize, usize),
    dest: Seq<char>,
) -> Seq<ExitSpec> {
    match (door_at(t, c), exit_index_from(es, c, 0)) {
        (true, None) => es.push(ExitSpec { tile: c, dest }),
        (false, Some(i)) => es.remove(i),
        _ => es,
    }
}

/// Whether the cell at `tile` holds an exit door, normal or secret.
pub fn is_door(level: &LevelData, tile: (usize, usize)) -> (r: bool)
    requires
        tile.1 < level.tiles@.len(),
        tile.0 < level.tiles@[tile.1 as int]@.len(),
    ensures
        r == door_at(rows_view(level.tiles@), tile),
{
    let t = level.tiles[tile.1][tile.0];
    t == tiles::EXIT || t == tiles::SECRET_EXIT
}

/// Index of the first routing entry at `tile`.
pub(crate) fn exit_index(level: &LevelData, tile: (usize, usize)) -> (r: Option<usize>)
    ensures
        match exit_index_from(exits_view(level.exits@), tile, 0) {
            Some(i) => r == Some(i as usize),
            None => r is None,
        },
        r matches Some(i) ==> i < level.exits@.len() && exit_index_from(
            exits_view(level.exits@),
            tile,
            0,
        ) == Some(i as int),
{
    let ghost es = exits_view(level.exits@);
    let mut i: usize = 0;
    while i < level.exits.len()
        invariant
            i <= level.exits@.len(),
            es == exits_view(level.exits@),
            exit_index_from(es, tile, 0) == exit_index_from(es, tile, i as int),
        decreases level.exits.len() - i,
    {
        assert(es[i as int].tile == level.exits@[i as int].tile);
        if level.exits[i].tile.0 == tile.0 && level.exits[i].tile.1 == tile.1 {
            return Some(i);
        }
        i = i + 1;
    }
    None
}

/// Keep the exit routing in step with the grid at one cell: add an entry
/// leading to `default_dest` when the cell is a door without one, drop the
/// cell's entry when it is not a door.
pub fn reconcile_exit(level: &mut LevelData, tile: (usize, usize), default_dest: &str)
    ensures
        exits_view(final(level).exits@) == reconciled(
            exits_view(old(level).exits@),
            rows_view(old(level).tiles@),
            tile,
            default_dest@,
        ),
        final(level).tiles == old(level).tiles,
        final(level).name == old(level).name,
        final(level).id == old(level).id,
        final(level).spawn == old(level).spawn,
        final(level).path_blocks == old(level).path_blocks,
        final(level).decorations == old(level).decorations,
{
    let ghost es = exits_view(level.exits@);
    let ghost t = rows_view(level.tiles@);
    let ghost d = default_dest@;
    let door = tile.1 < level.tiles.len() && tile.0 < level.tiles[tile.1].len() && is_door(
        level,
        tile,
    );
    assert(door == door_at(t, tile));
    match exit_index(level, tile) {
        None => {
            if door {
                level.exits.push(ExitDoor { tile, dest: String::from_str(default_dest) });
                assert(exits_view(level.exits@) =~= es.push(ExitSpec { tile, dest: d }));
                assert(reconciled(es, t, tile, d) == es.push(ExitSpec { tile, dest: d }));
            } else {
                assert(reconciled(es, t, tile, d) == es);
            }
        },
        Some(i) => {
            if !door {
                level.exits.remove(i);
                assert(exits_view(level.exits@) =~= es.remove(i as int));
                assert(reconciled(es, t, tile, d) == es.remove(i as int));
            } else {
                assert(reconciled(es, t, tile, d) == es);
            }
        },
    }
}

/// Route the exit door at `tile` to the level whose id is `dest`. Returns
/// whether the door had a routing entry (its first one is the one changed).
pub fn set_exit_dest(level: &mut LevelData, tile: (usize, usize), dest: &str) -> (found: bool)
    ensures
        match exit_index_from(exits_view(old(level).exits@), tile, 0) {
            Some(i) => found && exits_view(final(level).exits@) == exits_view(
                old(level).exits@,
            ).update(i, ExitSpec { tile, dest: dest@ }),
            None => !found && exits_view(final(level).exits@) == exits_view(old(level).exits@),
        },
        final(level).tiles == old(level).tiles,
        final(level).name == old(level).name,
        final(level).id == old(level).id,
        final(level).spawn == old(level).spawn,
        final(level).path_blocks == old(level).path_blocks,
        final(level).decorations == old(level).decorations,
{
    let ghost es = exits_view(level.exits@);
    match exit_index(level, tile) {
        None => false,
        Some(i) => {
            let mut e = ExitDoor { tile, dest: String::from_str(dest) };
            level.exits.set_and_swap(i, &mut e);
            assert(exits_view(level.exits@) =~= es.update(i as int, ExitSpec { tile, dest: dest@ }));
            true
        },
    }
}

/// Whether painting `tool` on cell `(tx, ty)` changes anything, and what the
/// cell becomes: erasing or painting a tile the cell already holds is a no-op;
/// placing the spawn always counts as a change and clears the cell.
pub open spec fn tool_effect(t: Seq<Seq<u32>>, tool: Tool, tx: int, ty: int) -> Option<u32> {
    if ty >= t.len() || tx >= t[ty].len() {
        None
    } else {
        match tool {
            Tool::Erase => if t[ty][tx] == tiles::EMPTY {
                None
            } else {
                Some(tiles::EMPTY)
            },
            Tool::Tile(n) => if t[ty][tx] == n {
                None
            } else {
                Some(n)
            },
            Tool::Spawn => Some(tiles::EMPTY),
        }
    }
}

/// Apply a tool to grid cell `(tx, ty)`. Returns whether the level changed;
/// a cell outside the grid is ignored. Placing the spawn also moves the
/// player's spawn to stand centred on that cell. The cell's exit routing is
/// then reconciled: a door painted there is routed to `default_dest`, and a
/// door painted over loses its entry.
pub fn apply_tool(
    level: &mut LevelData,
    tool: Tool,
    default_dest: &str,
    tx: usize,
    ty: usize,
) -> (changed: bool)
    requires
        tx <= 0x0100_0000_0000_0000,
        ty <= 0x0100_0000_0000_0000,
    ensures
        changed == tool_effect(rows_view(old(level).tiles@), tool, tx as int, ty as int) is Some,
        match tool_effect(rows_view(old(level).tiles@), tool, tx as int, ty as int) {
            None => *final(level) == *old(level),
            Some(v) => {
                let t = rows_view(old(level).tiles@).update(
                    ty as int,
                    rows_view(old(level).tiles@)[ty as int].update(tx as int, v),
                );
                &&& rows_view(final(level).tiles@) == t
                &&& final(level).spawn == (if tool is Spawn {
                    spawn_pixel(tx as int, ty as int)
                } else {
                    old(level).spawn
                })
                &&& exits_view(final(level).exits@) == reconciled(
                    exits_view(old(level).exits@),
                    t,
                    (tx, ty),
                    default_dest@,
                )
            },
        },
        final(level).name == old(level).name,
        final(level).id == old(level).id,
        final(level).path_blocks == old(level).path_blocks,
        final(level).decorations == old(level).decorations,
{
    if ty >= level.tiles.len() || tx >= level.tiles[ty].len() {
        return false;
    }
    assert(level.tiles@[ty as int]@ == rows_view(level.tiles@)[ty as int]);
    let cur = level.tiles[ty][tx];
    match tool {
        Tool::Erase => {
            if cur == tiles::EMPTY {
                return false;
            }
            set_tile(&mut level.tiles, tx, ty, tiles::EMPTY);
        },
        Tool::Tile(n) => {
            if cur == n {
                return false;
            }
            set_tile(&mut level.tiles, tx, ty, n);
        },
        Tool::Spawn => {
            set_tile(&mut level.tiles, tx, ty, tiles::EMPTY);
            level.spawn = (tx as i64 * 40 + 12, ty as i64 * 40 + 2);
        },
    }
    reconcile_exit(level, (tx, ty), default_dest);
    true
}

/// Place a decoration of `sprite` on `layer` in grid cell `tile`, where
/// `found` is the index of the decoration already on that layer in that cell,
/// if any: that one takes the sprite (no change when it has it already);
/// otherwise a new one is added at the cell's top-left pixel. Returns whether
/// the level changed.
pub fn place_deco(
    level: &mut LevelData,
    found: Option<usize>,
    sprite: u32,
    layer: DecoLayer,
    tile: (usize, usize),
) -> (changed: bool)
    requires
        found matches Some(i) ==> i < old(level).decorations@.len(),
        tile.0 <= 0x0100_0000_0000_0000,
        tile.1 <= 0x0100_0000_0000_0000,
    ensures
        match found {
            Some(i) => {
                let d = decos_view(old(level).decorations@)[i as int];
                &&& changed == (d.sprite != sprite)
                &&& decos_view(final(level).decorations@) == decos_view(
                    old(level).decorations@,
                ).update(i as int, DecorationSpec { sprite, ..d })
            },
            None => changed && decos_view(final(level).decorations@) == decos_view(
                old(level).decorations@,
            ).push(
                DecorationSpec {
                    x: decimal((tile.0 * 40) as nat),
                    y: decimal((tile.1 * 40) as nat),
                    sprite,
                    layer,
                },
            ),
        },
        final(level).tiles == old(level).tiles,
        final(level).name == old(level).name,
        final(level).id == old(level).id,
        final(level).spawn == old(level).spawn,
        final(level).path_blocks == old(level).path_blocks,
        final(level).exits == old(level).exits,
{
    let ghost ds = decos_view(level.decorations@);
    match found {
        Some(i) => {
            if level.decorations[i].sprite == sprite {
                assert(ds.update(i as int, DecorationSpec { sprite, ..ds[i as int] }) =~= ds);
                return false;
            }
            let mut d = Decoration {
                x: String::new(),
                y: String::new(),
                sprite: 0,
                layer: DecoLayer::Background,
            };
            level.decorations.set_and_swap(i, &mut d);
            d.sprite = sprite;
            level.decorations.set_and_swap(i, &mut d);
            assert(decos_view(level.decorations@) =~= ds.update(
                i as int,
                DecorationSpec { sprite, ..ds[i as int] },
            ));
            true
        },
        None => {
            let mut x = String::new();
            push_decimal(&mut x, tile.0 as u64 * 40);
            let mut y = String::new();
            push_decimal(&mut y, tile.1 as u64 * 40);
            level.decorations.push(Decoration { x, y, sprite, layer });
            assert(decos_view(level.decorations@) =~= ds.push(
                DecorationSpec {
                    x: decimal((tile.0 * 40) as nat),
                    y: decimal((tile.1 * 40) as nat),
                    sprite,
                    layer,
                },
            ));
            true
        },
    }
}

/// Remove the decoration at index `found` (the one on the active layer in
/// the cell under the cursor), if there is one. Returns whether the level
/// changed.
pub fn erase_deco(level: &mut LevelData, found: Option<usize>) -> (changed: bool)
    requires
        found matches Some(i) ==> i < old(level).decorations@.len(),
    ensures
        match found {
            Some(i) => changed && final(level).decorations@ == old(level).decorations@.remove(
                i as int,
            ),
            None => !changed && final(level).decorations@ == old(level).decorations@,
        },
        final(level).tiles == old(level).tiles,
        final(level).name == old(level).name,
        final(level).id == old(level).id,
        final(level).spawn == old(level).spawn,
        final(level).path_blocks == old(level).path_blocks,
        final(level).exits == old(level).exits,
{
    match found {
        Some(i) => {
            level.decorations.remove(i);
            true
        },
        None => false,
    }
}

} // verus!
