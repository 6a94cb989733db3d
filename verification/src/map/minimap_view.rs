//! The minimap texture: which slice of the world it holds, how a chunk is
//! painted into it, and which part of it the view shows.

use vstd::prelude::*;

use crate::conf::{MINIMAP_IMAGE_SIZE, RECENTRE_MARGIN, ZOOM_LEVELS};
use crate::map::minimap::{ChunkKey, MinimapData, MinimapTile, TILES_PER_CHUNK};
use crate::map::position::Position;

verus! {

/// The pixel a tile no chunk has written yet shows.
pub const UNEXPLORED: [u8; 4] = [0, 0, 0, 255];

/// The world tile drawn at pixel `(0, 0)`, for a texture centred on `player`.
pub open spec fn spec_centred_origin(player: Position) -> (u32, u32) {
    (
        (if player.x >= 1024 { player.x - 1024 } else { 0 }) as u32,
        (if player.y >= 1024 { player.y - 1024 } else { 0 }) as u32,
    )
}

pub fn centred_origin(player: &Position) -> (o: (u32, u32))
    ensures
        o == spec_centred_origin(*player),
{
    let half = MINIMAP_IMAGE_SIZE / 2;
    (player.x.saturating_sub(half) as u32, player.y.saturating_sub(half) as u32)
}

/// The slice of the world the texture holds, and the floor it was painted from.
#[derive(Clone, Copy, Debug, PartialEq, Eq, Structural)]
pub struct MinimapWindow {
    pub origin_x: u32,
    pub origin_y: u32,
    pub painted_z: Option<u8>,
}

pub open spec fn inside_with_margin(p: u16, o: u32) -> bool {
    RECENTRE_MARGIN <= p - o < MINIMAP_IMAGE_SIZE - RECENTRE_MARGIN
}

/// Where the window should move for `player`, or `None` when the one it holds
/// will do: on another floor it always moves, on the same floor only once the
/// player nears the edge and only if that changes anything.
pub open spec fn spec_retarget(w: MinimapWindow, player: Position) -> Option<(u32, u32)> {
    let target = spec_centred_origin(player);
    let holds = inside_with_margin(player.x, w.origin_x) && inside_with_margin(player.y, w.origin_y);
    if w.painted_z != Some(player.z) || (!holds && target != (w.origin_x, w.origin_y)) {
        Some(target)
    } else {
        None
    }
}

impl MinimapWindow {
    /// A window that has painted nothing yet.
    pub fn new() -> (w: MinimapWindow)
        ensures
            w == (MinimapWindow { origin_x: 0, origin_y: 0, painted_z: None }),
    {
        MinimapWindow { origin_x: 0, origin_y: 0, painted_z: None }
    }

    fn holds_with_margin(&self, player: &Position) -> (b: bool)
        ensures
            b == (inside_with_margin(player.x, self.origin_x) && inside_with_margin(player.y, self.origin_y)),
    {
        let px = player.x as i64 - self.origin_x as i64;
        let py = player.y as i64 - self.origin_y as i64;
        let lo = RECENTRE_MARGIN as i64;
        let hi = (MINIMAP_IMAGE_SIZE - RECENTRE_MARGIN) as i64;
        px >= lo && px < hi && py >= lo && py < hi
    }

    pub fn retarget(&self, player: &Position) -> (r: Option<(u32, u32)>)
        ensures
            r == spec_retarget(*self, *player),
    {
        let target = centred_origin(player);
        let stale = match self.painted_z {
            Some(z) => z != player.z,
            None => true,
        } || (!self.holds_with_margin(player) && (target.0 != self.origin_x || target.1 != self.origin_y));
        if stale {
            Some(target)
        } else {
            None
        }
    }

    /// Follows the player: moves the window when `retarget` says so and then
    /// marks the player's floor for a full repaint. Returns whether it moved.
    pub fn follow(&mut self, minimap: &mut MinimapData, player: &Position) -> (moved: bool)
        requires
            old(minimap).wf(),
        ensures
            final(minimap).wf(),
            moved == spec_retarget(*old(self), *player) is Some,
            moved ==> {
                &&& (final(self).origin_x, final(self).origin_y) == spec_retarget(*old(self), *player).unwrap()
                &&& final(self).painted_z == Some(player.z)
                &&& forall|k: ChunkKey| #[trigger] final(minimap).chunk(k) == match old(minimap).chunk(k) {
                    Some(c) => Some(
                        crate::map::minimap::ChunkView {
                            tiles: c.tiles,
                            dirty: c.dirty,
                            gpu_dirty: c.gpu_dirty || k.z == player.z,
                        },
                    ),
                    None => None,
                }
            },
            !moved ==> *final(self) == *old(self) && forall|k: ChunkKey| #[trigger] final(minimap).chunk(k) == old(minimap).chunk(k),
    {
        match self.retarget(player) {
            Some((x, y)) => {
                self.origin_x = x;
                self.origin_y = y;
                self.painted_z = Some(player.z);
                minimap.mark_floor_gpu_dirty(player.z);
                true
            },
            None => false,
        }
    }
}

/// The RGB a minimap colour index stands for: a 6x6x6 cube.
pub open spec fn spec_color_to_rgb(color: u8) -> (u8, u8, u8) {
    (((color / 36) % 6 * 51) as u8, ((color / 6) % 6 * 51) as u8, ((color % 6) * 51) as u8)
}

pub fn minimap_color_to_rgb(color: u8) -> (rgb: (u8, u8, u8))
    ensures
        rgb == spec_color_to_rgb(color),
{
    (color / 36 % 6 * 51, color / 6 % 6 * 51, color % 6 * 51)
}

pub const IMAGE_BYTES: usize = 16777216;

/// The byte an image holds at `i` after a chunk is painted: the tile's colour
/// (and full alpha) where the chunk covers the pixel, the old byte elsewhere.
pub open spec fn spec_painted_byte(
    old_data: Seq<u8>,
    origin: (u32, u32),
    key: ChunkKey,
    tiles: Seq<MinimapTile>,
    i: int,
) -> u8 {
    let px = (i / 4) % 2048;
    let py = (i / 4) / 2048;
    let lx = px - (key.cx * 64 - origin.0);
    let ly = py - (key.cy * 64 - origin.1);
    if 0 <= lx < 64 && 0 <= ly < 64 {
        let rgb = spec_color_to_rgb(tiles[ly * 64 + lx].color);
        if i % 4 == 0 {
            rgb.0
        } else if i % 4 == 1 {
            rgb.1
        } else if i % 4 == 2 {
            rgb.2
        } else {
            255u8
        }
    } else {
        old_data[i]
    }
}

/// Paints one chunk into the RGBA texture held in the first `IMAGE_BYTES` of
/// `data`, clipped to it; bytes past the texture are left as they were.
pub fn paint_chunk(data: &mut Vec<u8>, origin: (u32, u32), key: ChunkKey, tiles: &Vec<MinimapTile>)
    requires
        old(data)@.len() >= IMAGE_BYTES,
        tiles@.len() >= TILES_PER_CHUNK,
    ensures
        final(data)@.len() == old(data)@.len(),
        forall|i: int| IMAGE_BYTES <= i < old(data)@.len() ==> #[trigger] final(data)@[i] == old(data)@[i],
        forall|i: int| 0 <= i < IMAGE_BYTES ==> #[trigger] final(data)@[i] == spec_painted_byte(
            old(data)@,
            origin,
            key,
            tiles@,
            i,
        ),
{
    let chunk_x: i64 = key.cx as i64 * 64 - origin.0 as i64;
    let chunk_y: i64 = key.cy as i64 * 64 - origin.1 as i64;
    let ghost old_data = data@;
    if chunk_x <= -64 || chunk_x >= 2048 || chunk_y <= -64 || chunk_y >= 2048 {
        proof {
            assert forall|i: int| 0 <= i < IMAGE_BYTES implies #[trigger] data@[i] == spec_painted_byte(
                old_data,
                origin,
                key,
                tiles@,
                i,
            ) by {
                lemma_pixel_bounds(i);
            }
        }
        return;
    }
    let mut ly: i64 = 0;
    while ly < 64
        invariant
            data@.len() == old_data.len(),
            old_data.len() >= IMAGE_BYTES,
            forall|i: int| IMAGE_BYTES <= i < old_data.len() ==> #[trigger] data@[i] == old_data[i],
            tiles@.len() >= TILES_PER_CHUNK,
            0 <= ly <= 64,
            -64 < chunk_x < 2048,
            -64 < chunk_y < 2048,
            chunk_x == key.cx * 64 - origin.0,
            chunk_y == key.cy * 64 - origin.1,
            forall|i: int| 0 <= i < IMAGE_BYTES ==> #[trigger] data@[i] == if (i / 4) / 2048 - chunk_y < ly {
                spec_painted_byte(old_data, origin, key, tiles@, i)
            } else {
                old_data[i]
            },
        decreases 64 - ly,
    {
        let py = chunk_y + ly;
        let mut lx: i64 = 0;
        while lx < 64
            invariant
                data@.len() == old_data.len(),
                old_data.len() >= IMAGE_BYTES,
                forall|i: int| IMAGE_BYTES <= i < old_data.len() ==> #[trigger] data@[i] == old_data[i],
                tiles@.len() >= TILES_PER_CHUNK,
                0 <= ly < 64,
                0 <= lx <= 64,
                py == chunk_y + ly,
                -64 < chunk_x < 2048,
                -64 < chunk_y < 2048,
                chunk_x == key.cx * 64 - origin.0,
                chunk_y == key.cy * 64 - origin.1,
                forall|i: int| 0 <= i < IMAGE_BYTES ==> #[trigger] data@[i] == if (i / 4) / 2048 - chunk_y < ly
                    || ((i / 4) / 2048 - chunk_y == ly && (i / 4) % 2048 - chunk_x < lx) {
                    spec_painted_byte(old_data, origin, key, tiles@, i)
                } else {
                    old_data[i]
                },
            decreases 64 - lx,
        {
            let px = chunk_x + lx;
            if 0 <= py && py < 2048 && 0 <= px && px < 2048 {
                let (r, g, b) = minimap_color_to_rgb(tiles[(ly * 64 + lx) as usize].color);
                let idx = ((py * 2048 + px) * 4) as usize;
                let ghost before = data@;
                data.set(idx, r);
                data.set(idx + 1, g);
                data.set(idx + 2, b);
                data.set(idx + 3, 255);
                proof {
                    assert forall|i: int| 0 <= i < IMAGE_BYTES implies #[trigger] data@[i] == if (i / 4) / 2048 - chunk_y < ly
                        || ((i / 4) / 2048 - chunk_y == ly && (i / 4) % 2048 - chunk_x < lx + 1) {
                        spec_painted_byte(old_data, origin, key, tiles@, i)
                    } else {
                        old_data[i]
                    } by {
                        lemma_pixel_bounds(i);
                        lemma_pixel_index(i, idx as int, px as int, py as int);
                    }
                }
            } else {
                proof {
                    assert forall|i: int| 0 <= i < IMAGE_BYTES implies #[trigger] data@[i] == if (i / 4) / 2048 - chunk_y < ly
                        || ((i / 4) / 2048 - chunk_y == ly && (i / 4) % 2048 - chunk_x < lx + 1) {
                        spec_painted_byte(old_data, origin, key, tiles@, i)
                    } else {
                        old_data[i]
                    } by {
                        lemma_pixel_bounds(i);
                    }
                }
            }
            lx = lx + 1;
        }
        proof {
            assert forall|i: int| 0 <= i < IMAGE_BYTES implies #[trigger] data@[i] == if (i / 4) / 2048 - chunk_y < ly + 1 {
                spec_painted_byte(old_data, origin, key, tiles@, i)
            } else {
                old_data[i]
            } by {
                lemma_pixel_bounds(i);
            }
        }
        ly = ly + 1;
    }
    proof {
        assert forall|i: int| 0 <= i < IMAGE_BYTES implies #[trigger] data@[i] == spec_painted_byte(
            old_data,
            origin,
            key,
            tiles@,
            i,
        ) by {
            lemma_pixel_bounds(i);
        }
    }
}

proof fn lemma_pixel_bounds(i: int)
    requires
        0 <= i < IMAGE_BYTES,
    ensures
        0 <= (i / 4) % 2048 < 2048,
        0 <= (i / 4) / 2048 < 2048,
        0 <= i % 4 < 4,
{
    assert(0 <= i / 4 < 4194304) by (nonlinear_arith)
        requires 0 <= i < 16777216;
    assert(0 <= (i / 4) / 2048 < 2048) by (nonlinear_arith)
        requires 0 <= i / 4 < 4194304;
    assert(0 <= (i / 4) % 2048 < 2048) by (nonlinear_arith)
        requires 0 <= i / 4;
}

proof fn lemma_pixel_index(i: int, idx: int, px: int, py: int)
    requires
        0 <= px < 2048,
        0 <= py < 2048,
        idx == (py * 2048 + px) * 4,
        0 <= i,
    ensures
        (idx <= i < idx + 4) <==> ((i / 4) % 2048 == px && (i / 4) / 2048 == py),
        idx <= i < idx + 4 ==> i % 4 == i - idx,
{
    assert((idx <= i < idx + 4) <==> i / 4 == py * 2048 + px) by (nonlinear_arith)
        requires idx == (py * 2048 + px) * 4, 0 <= i, 0 <= px, 0 <= py;
    assert(i / 4 == py * 2048 + px <==> ((i / 4) % 2048 == px && (i / 4) / 2048 == py)) by (nonlinear_arith)
        requires 0 <= px < 2048, 0 <= py, 0 <= i;
    assert(idx <= i < idx + 4 ==> i % 4 == i - idx) by (nonlinear_arith)
        requires idx == (py * 2048 + px) * 4, 0 <= i;
}

/// The part of the texture the view shows: `ZOOM_LEVELS[zoom]` tiles square,
/// centred on the player and clamped inside the texture, as
/// `(min_x, min_y, max_x, max_y)` in texture pixels.
pub open spec fn spec_view_rect(player: Position, origin: (u32, u32), zoom: int) -> (int, int, int, int) {
    let tiles = ZOOM_LEVELS[zoom] as int;
    let half = tiles / 2;
    let max_origin = if MINIMAP_IMAGE_SIZE - tiles > 0 { MINIMAP_IMAGE_SIZE - tiles } else { 0 };
    let min_x = crate::map::draw_order::clamp_int(player.x - origin.0 - half, 0, max_origin);
    let min_y = crate::map::draw_order::clamp_int(player.y - origin.1 - half, 0, max_origin);
    (min_x, min_y, min_x + tiles, min_y + tiles)
}

pub fn player_centered_rect(player: &Position, origin: (u32, u32), zoom: usize) -> (r: (i64, i64, i64, i64))
    requires
        zoom < 4,
    ensures
        (r.0 as int, r.1 as int, r.2 as int, r.3 as int) == spec_view_rect(*player, origin, zoom as int),
{
    let levels = ZOOM_LEVELS;
    let tiles = levels[zoom] as i64;
    let half = tiles / 2;
    let max_origin: i64 = if MINIMAP_IMAGE_SIZE as i64 - tiles > 0 { MINIMAP_IMAGE_SIZE as i64 - tiles } else { 0 };
    let cx = player.x as i64 - origin.0 as i64 - half;
    let cy = player.y as i64 - origin.1 as i64 - half;
    let min_x = if cx < 0 { 0 } else if cx > max_origin { max_origin } else { cx };
    let min_y = if cy < 0 { 0 } else if cy > max_origin { max_origin } else { cy };
    (min_x, min_y, min_x + tiles, min_y + tiles)
}


/// The zoom level after a press of a zoom button: zooming in steps down to a
/// closer level, zooming out up to a wider one, neither past the end.
pub fn zoom_step(zoom: usize, zoom_in: bool) -> (z: usize)
    ensures
        z == if zoom_in {
            if zoom > 0 {
                zoom - 1
            } else {
                zoom as int
            }
        } else if zoom < ZOOM_LEVELS@.len() - 1 {
            zoom + 1
        } else {
            zoom as int
        },
{
    if zoom_in {
        if zoom > 0 {
            zoom - 1
        } else {
            zoom
        }
    } else if zoom < 3 {
        zoom + 1
    } else {
        zoom
    }
}
} // verus!
