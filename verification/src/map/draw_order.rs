//! Tibia's draw order, packed into an integer key:
//!
//! ```text
//! ((((MAX_FLOOR - z) * RANKS + rank) * ROWS + row) * COLS + col) * TILE_SPAN
//!     + layer * SLOT_COUNT + slot
//! ```
//!
//! `row`/`col` are relative to a window around the player, which keeps every key
//! below 2^24 so that the renderer's `f32` depth holds it exactly.

use vstd::prelude::*;

use crate::conf::{LAYER_COUNT, MAX_FLOOR, SLOT_COUNT, TILES_X, TILES_Y, VIEW_MARGIN_TILES};
use crate::map::position::Position;

verus! {

/// Which whole-floor pass a drawable belongs to, earliest first.
#[derive(Clone, Copy, Debug, PartialEq, Eq, Structural)]
pub enum DrawRank {
    /// Grounds and borders.
    Ground,
    /// Corpses and liquid pools.
    Lying,
    /// Everything that stands up.
    Standing,
}

/// What a drawable is within its tile, earliest first.
#[derive(Clone, Copy, Debug, PartialEq, Eq, Structural)]
pub enum DrawLayer {
    Ground,
    Border,
    /// A creature crossing the corner tile of a diagonal step.
    PassingThrough,
    Bottom,
    Items,
    Target,
    Creature,
    Effect,
    Top,
    Missile,
}

pub const FLOOR_COUNT: u32 = 16;
/// One more than the largest rank, with a spare.
pub const RANKS: u32 = 4;
pub const COLS: u32 = 23;
pub const ROWS: u32 = 19;
/// Keys per tile: one per (layer, slot) pair.
pub const TILE_SPAN: u32 = 256;
/// One past the largest key the scheme produces.
pub const DRAW_KEY_MAX: u32 = 7159808;

pub open spec fn rank_value(r: DrawRank) -> int {
    match r {
        DrawRank::Ground => 0,
        DrawRank::Lying => 1,
        DrawRank::Standing => 2,
    }
}

pub open spec fn layer_value(l: DrawLayer) -> int {
    match l {
        DrawLayer::Ground => 0,
        DrawLayer::Border => 1,
        DrawLayer::PassingThrough => 2,
        DrawLayer::Bottom => 3,
        DrawLayer::Items => 4,
        DrawLayer::Target => 5,
        DrawLayer::Creature => 6,
        DrawLayer::Effect => 7,
        DrawLayer::Top => 8,
        DrawLayer::Missile => 9,
    }
}

impl DrawRank {
    pub fn value(self) -> (v: u32)
        ensures
            v == rank_value(self),
    {
        match self {
            DrawRank::Ground => 0,
            DrawRank::Lying => 1,
            DrawRank::Standing => 2,
        }
    }
}

impl DrawLayer {
    pub fn value(self) -> (v: u32)
        ensures
            v == layer_value(self),
    {
        match self {
            DrawLayer::Ground => 0,
            DrawLayer::Border => 1,
            DrawLayer::PassingThrough => 2,
            DrawLayer::Bottom => 3,
            DrawLayer::Items => 4,
            DrawLayer::Target => 5,
            DrawLayer::Creature => 6,
            DrawLayer::Effect => 7,
            DrawLayer::Top => 8,
            DrawLayer::Missile => 9,
        }
    }
}

/// The tile at the top-left of the drawn window, and the floor it was measured on.
#[derive(Clone, Copy, Debug, PartialEq, Eq, Structural)]
pub struct DrawOrigin {
    pub x: i32,
    pub y: i32,
    pub z: u8,
}

impl DrawOrigin {
    pub fn around(pos: &Position) -> (o: DrawOrigin)
        ensures
            o.x == pos.x - TILES_X / 2,
            o.y == pos.y - TILES_Y / 2,
            o.z == pos.z,
    {
        DrawOrigin { x: pos.x as i32 - (TILES_X / 2) as i32, y: pos.y as i32 - (TILES_Y / 2) as i32, z: pos.z }
    }
}

pub open spec fn clamp_int(v: int, lo: int, hi: int) -> int {
    if v < lo {
        lo
    } else if v > hi {
        hi
    } else {
        v
    }
}

/// Column of `pos` in the window, before clamping; each floor's window is shifted
/// by its distance from the origin's floor.
pub open spec fn raw_col(origin: DrawOrigin, pos: Position) -> int {
    pos.x - (origin.x + (origin.z - pos.z)) + VIEW_MARGIN_TILES
}

pub open spec fn raw_row(origin: DrawOrigin, pos: Position) -> int {
    pos.y - (origin.y + (origin.z - pos.z)) + VIEW_MARGIN_TILES
}

pub open spec fn key_col(origin: DrawOrigin, pos: Position) -> int {
    clamp_int(raw_col(origin, pos), 0, COLS - 1)
}

pub open spec fn key_row(origin: DrawOrigin, pos: Position) -> int {
    clamp_int(raw_row(origin, pos), 0, ROWS - 1)
}

pub open spec fn key_floor(pos: Position) -> int {
    clamp_int(MAX_FLOOR - pos.z, 0, FLOOR_COUNT - 1)
}

/// Whether `pos` lies in the drawn window, where no clamping happens.
pub open spec fn in_window(origin: DrawOrigin, pos: Position) -> bool {
    &&& 0 <= raw_col(origin, pos) < COLS
    &&& 0 <= raw_row(origin, pos) < ROWS
    &&& pos.z <= MAX_FLOOR
}

/// A tile's base key: its slot in the window, times the keys per tile.
pub open spec fn tile_base(origin: DrawOrigin, pos: Position, rank: DrawRank) -> int {
    ((((key_floor(pos) * RANKS + rank_value(rank)) * ROWS + key_row(origin, pos)) * COLS
        + key_col(origin, pos)) * TILE_SPAN)
}

/// A drawable's place within its tile; the stack slot saturates.
pub open spec fn layer_offset(layer: DrawLayer, slot: u32) -> int {
    layer_value(layer) * SLOT_COUNT + if slot < SLOT_COUNT { slot as int } else { SLOT_COUNT - 1 }
}

/// The whole key of a drawable.
pub open spec fn draw_key(origin: DrawOrigin, pos: Position, rank: DrawRank, layer: DrawLayer, slot: u32) -> int {
    tile_base(origin, pos, rank) + layer_offset(layer, slot)
}

fn clamp_i64(v: i64, lo: i64, hi: i64) -> (r: i64)
    requires
        lo <= hi,
    ensures
        r == clamp_int(v as int, lo as int, hi as int),
{
    if v < lo {
        lo
    } else if v > hi {
        hi
    } else {
        v
    }
}

fn tile_base_exec(origin: &DrawOrigin, pos: &Position, rank: DrawRank) -> (b: u32)
    ensures
        b == tile_base(*origin, *pos, rank),
        b + TILE_SPAN <= DRAW_KEY_MAX,
{
    let parallax = origin.z as i64 - pos.z as i64;
    let margin = VIEW_MARGIN_TILES as i64;
    let col = clamp_i64(pos.x as i64 - (origin.x as i64 + parallax) + margin, 0, COLS as i64 - 1);
    let row = clamp_i64(pos.y as i64 - (origin.y as i64 + parallax) + margin, 0, ROWS as i64 - 1);
    let floor = clamp_i64(MAX_FLOOR as i64 - pos.z as i64, 0, FLOOR_COUNT as i64 - 1);
    let r = rank.value() as i64;
    assert(0 <= floor <= 15 && 0 <= r <= 2 && 0 <= row <= 18 && 0 <= col <= 22);
    let b = ((((floor * 4 + r) * 19 + row) * 23 + col) * 256);
    b as u32
}

fn layer_offset_exec(layer: DrawLayer, slot: u32) -> (o: u32)
    ensures
        o == layer_offset(layer, slot),
        o < TILE_SPAN,
{
    let s = if slot < SLOT_COUNT { slot } else { SLOT_COUNT - 1 };
    layer.value() * SLOT_COUNT + s
}

/// Where a drawable sits in the draw order. `offset` is its layer and slot,
/// already folded into one number.
#[derive(Clone, Copy, Debug, PartialEq, Eq, Structural)]
pub struct DrawOrder {
    pub pos: Position,
    pub rank: DrawRank,
    pub offset: u32,
}

impl DrawOrder {
    pub fn new(pos: Position, rank: DrawRank, layer: DrawLayer, slot: u32) -> (d: DrawOrder)
        ensures
            d.pos == pos,
            d.rank == rank,
            d.offset == layer_offset(layer, slot),
    {
        DrawOrder { pos, rank, offset: layer_offset_exec(layer, slot) }
    }

    /// The key against `origin`; exactly representable in an `f32`.
    pub fn key(&self, origin: &DrawOrigin) -> (k: u32)
        requires
            self.offset < TILE_SPAN,
        ensures
            k == tile_base(*origin, self.pos, self.rank) + self.offset,
            k < DRAW_KEY_MAX,
    {
        tile_base_exec(origin, &self.pos, self.rank) + self.offset
    }

    /// Moves the drawable to `pos` on `layer` (stack slot 0), keeping its rank.
    /// Returns whether anything changed, so a caller can leave an unchanged
    /// component clean.
    pub fn move_to(&mut self, pos: &Position, layer: DrawLayer) -> (changed: bool)
        ensures
            final(self).pos == *pos,
            final(self).rank == old(self).rank,
            final(self).offset == layer_offset(layer, 0),
            changed == (old(self).pos != *pos || old(self).offset != layer_offset(layer, 0)),
    {
        let offset = layer_offset_exec(layer, 0);
        if self.pos != *pos || self.offset != offset {
            self.pos = *pos;
            self.offset = offset;
            true
        } else {
            false
        }
    }
}

/// The local depth of a target square drawn as a child of its creature: the
/// difference between the two layers.
pub const TARGET_SQUARE_LOCAL_Z: i32 = -16;

/// Every key fits below 2^24, and every layer in the space reserved for it.
pub proof fn lemma_keys_are_exact_in_f32(origin: DrawOrigin, pos: Position, rank: DrawRank, layer: DrawLayer, slot: u32)
    ensures
        0 <= draw_key(origin, pos, rank, layer, slot) < DRAW_KEY_MAX,
        DRAW_KEY_MAX <= 0x1000000,
        layer_value(DrawLayer::Missile) < LAYER_COUNT,
{
}

/// Within one tile the layers run Ground, Border, ... Missile, even under a
/// full stack.
pub proof fn lemma_layers_in_order(
    origin: DrawOrigin,
    pos: Position,
    rank: DrawRank,
    l1: DrawLayer,
    s1: u32,
    l2: DrawLayer,
    s2: u32,
)
    requires
        layer_value(l1) < layer_value(l2),
    ensures
        draw_key(origin, pos, rank, l1, s1) < draw_key(origin, pos, rank, l2, s2),
{
}

/// Within a floor and a rank, tiles run left to right then top to bottom, and
/// all of one tile draws before any of the next.
pub proof fn lemma_tiles_in_order(
    origin: DrawOrigin,
    p: Position,
    q: Position,
    rank: DrawRank,
    l1: DrawLayer,
    s1: u32,
    l2: DrawLayer,
    s2: u32,
)
    requires
        in_window(origin, p),
        in_window(origin, q),
        p.z == q.z,
        p.y < q.y || (p.y == q.y && p.x < q.x),
    ensures
        draw_key(origin, p, rank, l1, s1) < draw_key(origin, q, rank, l2, s2),
{
}

/// A deeper floor is drawn entirely before a shallower one, whatever the
/// rank, tile or layer.
pub proof fn lemma_deeper_floors_first(
    origin: DrawOrigin,
    p: Position,
    q: Position,
    r1: DrawRank,
    l1: DrawLayer,
    s1: u32,
    r2: DrawRank,
    l2: DrawLayer,
    s2: u32,
)
    requires
        p.z > q.z,
        p.z <= MAX_FLOOR,
    ensures
        draw_key(origin, p, r1, l1, s1) < draw_key(origin, q, r2, l2, s2),
{
}

/// On one floor, an earlier rank draws before a later one wherever either
/// sits: a creature is over a corpse from any square.
pub proof fn lemma_ranks_outrank_tiles(
    origin: DrawOrigin,
    p: Position,
    q: Position,
    r1: DrawRank,
    l1: DrawLayer,
    s1: u32,
    r2: DrawRank,
    l2: DrawLayer,
    s2: u32,
)
    requires
        p.z == q.z,
        rank_value(r1) < rank_value(r2),
    ensures
        draw_key(origin, p, r1, l1, s1) < draw_key(origin, q, r2, l2, s2),
{
}

/// A stack slot saturates at the last slot instead of wrapping into the next
/// layer.
pub proof fn lemma_slot_saturates(origin: DrawOrigin, pos: Position, rank: DrawRank, layer: DrawLayer, slot: u32)
    requires
        slot >= SLOT_COUNT - 1,
    ensures
        draw_key(origin, pos, rank, layer, slot) == draw_key(origin, pos, rank, layer, (SLOT_COUNT - 1) as u32),
{
}

/// A target square offset by `TARGET_SQUARE_LOCAL_Z` from its creature lands
/// exactly on the target layer of the same tile, just under the creature.
pub proof fn lemma_target_square_under_its_creature(origin: DrawOrigin, pos: Position, rank: DrawRank)
    ensures
        draw_key(origin, pos, rank, DrawLayer::Creature, 0) + TARGET_SQUARE_LOCAL_Z
            == draw_key(origin, pos, rank, DrawLayer::Target, 0),
        TARGET_SQUARE_LOCAL_Z < 0,
{
}

/// Two positions whose clamped window cells and floors agree key alike: a tile
/// far outside the window keys as the edge tile it clamps to.
pub proof fn lemma_outside_window_clamps(
    origin: DrawOrigin,
    p: Position,
    q: Position,
    rank: DrawRank,
    layer: DrawLayer,
    slot: u32,
)
    requires
        key_col(origin, p) == key_col(origin, q),
        key_row(origin, p) == key_row(origin, q),
        key_floor(p) == key_floor(q),
    ensures
        draw_key(origin, p, rank, layer, slot) == draw_key(origin, q, rank, layer, slot),
{
}

} // verus!
