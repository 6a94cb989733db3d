use vstd::prelude::*;

use crate::agent::WalkingDirection;
use crate::conf::{BASE_FLOOR, MAX_FLOOR, UNDERGROUND_REACH};
use crate::items::ItemFlag;
use crate::map::position::{direction_delta, wrap_coord, Position};
use crate::map::storage::{any_flag, WorldMap};

verus! {

pub open spec fn tile_has(map: WorldMap, p: Position, flag: ItemFlag) -> bool {
    match map.tile(p) {
        Some(t) => any_flag(t.items, flag),
        None => false,
    }
}

/// The tile on `floor` that visually covers `pos`: one tile `dir`-wards per
/// floor between the two; none when it falls off the map. Diagonals probe the
/// tile straight above.
pub open spec fn spec_covering_tile(dir: WalkingDirection, pos: Position, floor: u8) -> Option<Position> {
    let off = pos.z - floor;
    let (dx, dy) = match dir {
        WalkingDirection::East => (off, 0int),
        WalkingDirection::West => (-off, 0int),
        WalkingDirection::North => (0int, -off),
        WalkingDirection::South => (0int, off),
        _ => (0int, 0int),
    };
    let x = pos.x + dx;
    let y = pos.y + dy;
    if 0 <= x <= u16::MAX && 0 <= y <= u16::MAX {
        Some(Position { x: x as u16, y: y as u16, z: floor })
    } else {
        None
    }
}

pub fn covering_tile(dir: WalkingDirection, pos: &Position, floor: u8) -> (r: Option<Position>)
    ensures
        r == spec_covering_tile(dir, *pos, floor),
{
    let off = pos.z as i32 - floor as i32;
    let (dx, dy): (i32, i32) = match dir {
        WalkingDirection::East => (off, 0),
        WalkingDirection::West => (-off, 0),
        WalkingDirection::North => (0, -off),
        WalkingDirection::South => (0, off),
        _ => (0, 0),
    };
    let x = pos.x as i32 + dx;
    let y = pos.y as i32 + dy;
    if 0 <= x && x <= 65535 && 0 <= y && y <= 65535 {
        Some(Position { x: x as u16, y: y as u16, z: floor })
    } else {
        None
    }
}

/// Whether something on `floor` in direction `dir` hides the player's floor.
pub open spec fn spec_has_occlusion(dir: WalkingDirection, pos: Position, floor: u8, map: WorldMap) -> bool {
    match spec_covering_tile(dir, pos, floor) {
        None => false,
        Some(c) => if tile_has(map, c, ItemFlag::Bottom) && (dir is East || dir is South) {
            true
        } else {
            let neighbour = Position {
                x: wrap_coord(pos.x, direction_delta(dir).0),
                y: wrap_coord(pos.y, direction_delta(dir).1),
                z: pos.z,
            };
            (!tile_has(map, neighbour, ItemFlag::BlockSight) || floor - pos.z < -1) && (tile_has(
                map,
                c,
                ItemFlag::Ground,
            ) || tile_has(map, c, ItemFlag::Border))
        },
    }
}

pub fn has_occlusion(dir: WalkingDirection, pos: &Position, floor: u8, map: &WorldMap) -> (b: bool)
    ensures
        b == spec_has_occlusion(dir, *pos, floor, *map),
{
    let offset_pos = match covering_tile(dir, pos, floor) {
        None => return false,
        Some(p) => p,
    };
    let east_or_south = match dir {
        WalkingDirection::East | WalkingDirection::South => true,
        _ => false,
    };
    if map.is_bottom(&offset_pos) && east_or_south {
        return true;
    }
    (!map.block_sight(&pos.step(dir)) || (floor as i32 - pos.z as i32) < -1) && map.is_ground(&offset_pos)
}

/// Whether `floor` is drawn for a player standing on `pos`, judged on that
/// floor alone.
pub open spec fn spec_floor_visible(map: WorldMap, pos: Position, floor: u8) -> bool {
    if pos.z <= BASE_FLOOR && floor > BASE_FLOOR {
        false
    } else if pos.z > BASE_FLOOR && floor <= BASE_FLOOR {
        false
    } else if pos.z == floor || floor > pos.z {
        true
    } else {
        !spec_has_occlusion(WalkingDirection::North, pos, floor, map) && !spec_has_occlusion(
            WalkingDirection::East,
            pos,
            floor,
            map,
        ) && !spec_has_occlusion(WalkingDirection::South, pos, floor, map) && !spec_has_occlusion(
            WalkingDirection::West,
            pos,
            floor,
            map,
        )
    }
}

pub fn is_floor_visible(map: &WorldMap, pos: &Position, floor: u8) -> (b: bool)
    ensures
        b == spec_floor_visible(*map, *pos, floor),
{
    if pos.z <= BASE_FLOOR && floor > BASE_FLOOR {
        return false;
    }
    if pos.z > BASE_FLOOR && floor <= BASE_FLOOR {
        return false;
    }
    if pos.z == floor {
        return true;
    }
    if floor > pos.z {
        return true;
    }
    if has_occlusion(WalkingDirection::North, pos, floor, map) {
        return false;
    }
    if has_occlusion(WalkingDirection::East, pos, floor, map) {
        return false;
    }
    if has_occlusion(WalkingDirection::South, pos, floor, map) {
        return false;
    }
    if has_occlusion(WalkingDirection::West, pos, floor, map) {
        return false;
    }
    true
}

/// Every floor from `f` up to the player's own is visible on its own terms.
pub open spec fn clear_down_to(map: WorldMap, pos: Position, f: int) -> bool {
    forall|g: int| f <= g <= pos.z ==> #[trigger] spec_floor_visible(map, pos, g as u8)
}

/// Whether floor `f` is drawn. Above ground, a floor is drawn when nothing
/// between it and the player hides the view; underground, the view reaches
/// `UNDERGROUND_REACH` floors up and down and no further, and the surface is hidden.
pub open spec fn spec_floor_shown(map: WorldMap, pos: Position, f: int) -> bool {
    if pos.z <= BASE_FLOOR {
        if f <= pos.z {
            clear_down_to(map, pos, f)
        } else {
            f <= BASE_FLOOR
        }
    } else {
        let shallowest = if pos.z - UNDERGROUND_REACH > BASE_FLOOR + 1 {
            pos.z - UNDERGROUND_REACH
        } else {
            BASE_FLOOR + 1
        };
        let deepest = if pos.z + UNDERGROUND_REACH < MAX_FLOOR {
            pos.z + UNDERGROUND_REACH
        } else {
            MAX_FLOOR as int
        };
        if f <= pos.z {
            shallowest <= f && clear_down_to(map, pos, f)
        } else {
            f <= deepest
        }
    }
}

/// Which of the sixteen floors are drawn for a player on `pos`.
pub fn floors_visibility(map: &WorldMap, pos: &Position) -> (vis: Vec<bool>)
    requires
        pos.z <= MAX_FLOOR,
    ensures
        vis@.len() == MAX_FLOOR + 1,
        forall|f: int| 0 <= f <= MAX_FLOOR ==> #[trigger] vis@[f] == spec_floor_shown(*map, *pos, f),
{
    let mut vis: Vec<bool> = Vec::new();
    let mut f: u8 = 0;
    while f <= MAX_FLOOR
        invariant
            f <= MAX_FLOOR + 1,
            vis@.len() == f,
            forall|g: int| 0 <= g < f ==> vis@[g] == false,
        decreases MAX_FLOOR + 1 - f,
    {
        vis.push(false);
        f = f + 1;
    }
    let shallowest: u8 = if pos.z <= BASE_FLOOR {
        0
    } else if pos.z >= BASE_FLOOR + 1 + UNDERGROUND_REACH {
        pos.z - UNDERGROUND_REACH
    } else {
        BASE_FLOOR + 1
    };
    // Walk down from the player's floor until the first floor that is hidden.
    let mut z: i16 = pos.z as i16;
    let mut run = true;
    while z >= shallowest as i16
        invariant
            shallowest <= pos.z + 1,
            pos.z <= MAX_FLOOR,
            shallowest - 1 <= z <= pos.z,
            vis@.len() == MAX_FLOOR + 1,
            run == clear_down_to(*map, *pos, z + 1),
            forall|g: int| 0 <= g <= MAX_FLOOR && g <= z ==> vis@[g] == false,
            forall|g: int| z < g <= pos.z ==> vis@[g] == clear_down_to(*map, *pos, g),
            forall|g: int| pos.z < g <= MAX_FLOOR ==> vis@[g] == false,
        decreases z + 1,
    {
        if run {
            run = is_floor_visible(map, pos, z as u8);
        }
        proof {
            assert(run == clear_down_to(*map, *pos, z as int)) by {
                if clear_down_to(*map, *pos, z + 1) && spec_floor_visible(*map, *pos, z as u8) {
                    assert forall|g: int| z <= g <= pos.z implies #[trigger] spec_floor_visible(*map, *pos, g as u8) by {
                        if g > z {
                        }
                    }
                }
            }
        }
        let ghost before = vis@;
        vis.set(z as usize, run);
        assert(vis@ == before.update(z as int, run));
        assert(forall|g: int| 0 <= g <= MAX_FLOOR && g < z ==> vis@[g] == before[g]);
        z = z - 1;
    }
    // Below the player: the rest of the sky above ground, or the reach underground.
    let deepest: u8 = if pos.z <= BASE_FLOOR {
        BASE_FLOOR
    } else if pos.z + UNDERGROUND_REACH < MAX_FLOOR {
        pos.z + UNDERGROUND_REACH
    } else {
        MAX_FLOOR
    };
    let mut d: u8 = pos.z + 1;
    while d <= deepest
        invariant
            pos.z + 1 <= d <= deepest + 1,
            deepest <= MAX_FLOOR,
            vis@.len() == MAX_FLOOR + 1,
            shallowest <= pos.z + 1,
            shallowest - 1 <= z,
            z < shallowest,
            forall|g: int| 0 <= g <= MAX_FLOOR && g <= z ==> vis@[g] == false,
            forall|g: int| z < g <= pos.z ==> vis@[g] == clear_down_to(*map, *pos, g),
            forall|g: int| pos.z < g < d ==> vis@[g] == true,
            forall|g: int| d <= g <= MAX_FLOOR ==> vis@[g] == false,
        decreases deepest + 1 - d,
    {
        vis.set(d as usize, true);
        d = d + 1;
    }
    proof {
        assert forall|f: int| 0 <= f <= MAX_FLOOR implies #[trigger] vis@[f] == spec_floor_shown(*map, *pos, f) by {
            if f <= pos.z && f >= shallowest && f <= z {
                // the walk stopped above `f`: something between is hidden
                assert(!clear_down_to(*map, *pos, z + 1) || z + 1 < shallowest);
            }
        }
    }
    vis
}

/// A floor above the player, on the player's side of the surface, is hidden
/// when something covers the player from any of the four sides, North, East,
/// South or West, and shown when nothing does; once a floor is hidden, no floor
/// above it is drawn either.
pub proof fn lemma_any_side_can_hide_a_floor(map: WorldMap, pos: Position, floor: u8)
    requires
        floor < pos.z,
        (pos.z <= BASE_FLOOR) == (floor <= BASE_FLOOR),
    ensures
        spec_has_occlusion(WalkingDirection::North, pos, floor, map) ==> !spec_floor_visible(map, pos, floor),
        spec_has_occlusion(WalkingDirection::East, pos, floor, map) ==> !spec_floor_visible(map, pos, floor),
        spec_has_occlusion(WalkingDirection::South, pos, floor, map) ==> !spec_floor_visible(map, pos, floor),
        spec_has_occlusion(WalkingDirection::West, pos, floor, map) ==> !spec_floor_visible(map, pos, floor),
        !spec_has_occlusion(WalkingDirection::North, pos, floor, map) && !spec_has_occlusion(
            WalkingDirection::East,
            pos,
            floor,
            map,
        ) && !spec_has_occlusion(WalkingDirection::South, pos, floor, map) && !spec_has_occlusion(
            WalkingDirection::West,
            pos,
            floor,
            map,
        ) ==> spec_floor_visible(map, pos, floor),
        !spec_floor_visible(map, pos, floor) ==> forall|f: int| f <= floor ==> !#[trigger] spec_floor_shown(map, pos, f),
{
    if !spec_floor_visible(map, pos, floor) {
        assert forall|f: int| f <= floor implies !#[trigger] spec_floor_shown(map, pos, f) by {
            assert((floor as int) as u8 == floor);
            if clear_down_to(map, pos, f) {
                assert(spec_floor_visible(map, pos, (floor as int) as u8));
            }
        }
    }
}

/// What covers the player, read off the map: with `d` floors between the
/// player and a floor above, a ground tile `d` tiles to one side on that floor
/// hides it unless the tile next to the player on that side blocks sight (and
/// the floor is the one just above); a bottom tile `d` tiles east or south hides
/// it outright.
pub proof fn lemma_a_covering_tile_hides_the_floor(map: WorldMap, pos: Position, floor: u8)
    requires
        floor < pos.z,
        (pos.z <= BASE_FLOOR) == (floor <= BASE_FLOOR),
    ensures
        ({
            let d = pos.z - floor;
            &&& pos.x >= d && pos.x >= 1 && tile_has(
                map,
                Position { x: (pos.x - d) as u16, y: pos.y, z: floor },
                ItemFlag::Ground,
            ) && (!tile_has(map, Position { x: (pos.x - 1) as u16, y: pos.y, z: pos.z }, ItemFlag::BlockSight)
                || d > 1) ==> !spec_floor_visible(map, pos, floor)
            &&& pos.y >= d && pos.y >= 1 && tile_has(
                map,
                Position { x: pos.x, y: (pos.y - d) as u16, z: floor },
                ItemFlag::Ground,
            ) && (!tile_has(map, Position { x: pos.x, y: (pos.y - 1) as u16, z: pos.z }, ItemFlag::BlockSight)
                || d > 1) ==> !spec_floor_visible(map, pos, floor)
            &&& pos.x + d <= 65535 && tile_has(
                map,
                Position { x: (pos.x + d) as u16, y: pos.y, z: floor },
                ItemFlag::Ground,
            ) && (!tile_has(map, Position { x: (pos.x + 1) as u16, y: pos.y, z: pos.z }, ItemFlag::BlockSight)
                || d > 1) ==> !spec_floor_visible(map, pos, floor)
            &&& pos.y + d <= 65535 && tile_has(
                map,
                Position { x: pos.x, y: (pos.y + d) as u16, z: floor },
                ItemFlag::Ground,
            ) && (!tile_has(map, Position { x: pos.x, y: (pos.y + 1) as u16, z: pos.z }, ItemFlag::BlockSight)
                || d > 1) ==> !spec_floor_visible(map, pos, floor)
            &&& pos.x + d <= 65535 && tile_has(
                map,
                Position { x: (pos.x + d) as u16, y: pos.y, z: floor },
                ItemFlag::Bottom,
            ) ==> !spec_floor_visible(map, pos, floor)
            &&& pos.y + d <= 65535 && tile_has(
                map,
                Position { x: pos.x, y: (pos.y + d) as u16, z: floor },
                ItemFlag::Bottom,
            ) ==> !spec_floor_visible(map, pos, floor)
        }),
{
    lemma_any_side_can_hide_a_floor(map, pos, floor);
    let d = pos.z - floor;
    if pos.x >= 1 {
        assert(wrap_coord(pos.x, -1) == (pos.x - 1) as u16);
    }
    if pos.y >= 1 {
        assert(wrap_coord(pos.y, -1) == (pos.y - 1) as u16);
    }
    if pos.x + d <= 65535 {
        assert(wrap_coord(pos.x, 1) == (pos.x + 1) as u16);
    }
    if pos.y + d <= 65535 {
        assert(wrap_coord(pos.y, 1) == (pos.y + 1) as u16);
    }
    assert(wrap_coord(pos.x, 0) == pos.x);
    assert(wrap_coord(pos.y, 0) == pos.y);
}

} // verus!
