//! The explored map behind the minimap: 64x64 chunks of tile colours and
//! frictions, their on-disk encoding, and the window of the world the minimap
//! texture shows.

use vstd::prelude::*;

use std::collections::HashMap;
use vstd::std_specs::iter::IteratorSpec;

use crate::conf::{MINIMAP_IMAGE_SIZE, RECENTRE_MARGIN, ZOOM_LEVELS};
use crate::map::position::{lemma_position_key_injective, position_key, Position};

verus! {

broadcast use vstd::std_specs::hash::group_hash_axioms;

pub const CHUNK_SIZE: u16 = 64;
pub const TILES_PER_CHUNK: usize = 4096;

/// One explored tile. `friction` is `None` for unvisited, `Some(0)` for
/// impassable, `Some(n)` for passable at cost `n`.
#[derive(Clone, Copy, Debug, PartialEq, Eq, Structural)]
pub struct MinimapTile {
    pub color: u8,
    pub friction: Option<u8>,
}

impl MinimapTile {
    pub fn unvisited() -> (t: MinimapTile)
        ensures
            t == (MinimapTile { color: 0, friction: None }),
    {
        MinimapTile { color: 0, friction: None }
    }
}

impl Default for MinimapTile {
    fn default() -> (t: MinimapTile)
        ensures
            t == (MinimapTile { color: 0, friction: None }),
    {
        MinimapTile::unvisited()
    }
}

#[derive(Clone, Copy, Debug, PartialEq, Eq, Hash, Structural)]
pub struct ChunkKey {
    pub cx: u16,
    pub cy: u16,
    pub z: u8,
}

pub open spec fn chunk_code(k: ChunkKey) -> u64 {
    position_key(Position { x: k.cx, y: k.cy, z: k.z })
}

/// The chunk holding `pos` and the tile's index inside it, row-major.
pub open spec fn spec_key_and_offset(pos: Position) -> (ChunkKey, int) {
    (
        ChunkKey { cx: (pos.x / 64) as u16, cy: (pos.y / 64) as u16, z: pos.z },
        (pos.y % 64) * 64 + (pos.x % 64),
    )
}

pub fn key_and_offset(pos: &Position) -> (r: (ChunkKey, usize))
    ensures
        r.0 == spec_key_and_offset(*pos).0,
        r.1 == spec_key_and_offset(*pos).1,
        r.1 < TILES_PER_CHUNK,
{
    let cx = pos.x / CHUNK_SIZE;
    let cy = pos.y / CHUNK_SIZE;
    let lx = (pos.x % CHUNK_SIZE) as usize;
    let ly = (pos.y % CHUNK_SIZE) as usize;
    (ChunkKey { cx, cy, z: pos.z }, ly * 64 + lx)
}

fn chunk_code_exec(k: &ChunkKey) -> (c: u64)
    ensures
        c == chunk_code(*k),
{
    Position { x: k.cx, y: k.cy, z: k.z }.key()
}

pub struct MinimapChunk {
    pub key: ChunkKey,
    pub tiles: Vec<MinimapTile>,
    pub dirty: bool,
    pub gpu_dirty: bool,
}

/// A chunk as values: its tiles, whether the disk copy is stale, and whether
/// the texture copy is.
pub struct ChunkView {
    pub tiles: Seq<MinimapTile>,
    pub dirty: bool,
    pub gpu_dirty: bool,
}

pub open spec fn unvisited_chunk() -> Seq<MinimapTile> {
    Seq::new(TILES_PER_CHUNK as nat, |i: int| MinimapTile { color: 0, friction: None })
}

fn new_chunk_tiles() -> (v: Vec<MinimapTile>)
    ensures
        v@ == unvisited_chunk(),
{
    let mut v: Vec<MinimapTile> = Vec::new();
    while v.len() < TILES_PER_CHUNK
        invariant
            v@.len() <= TILES_PER_CHUNK,
            forall|i: int| 0 <= i < v@.len() ==> v@[i] == (MinimapTile { color: 0, friction: None }),
        decreases TILES_PER_CHUNK - v@.len(),
    {
        v.push(MinimapTile::unvisited());
    }
    assert(v@ =~= unvisited_chunk());
    v
}

/// The explored map, chunk by chunk.
pub struct MinimapData {
    chunks: HashMap<u64, MinimapChunk>,
}

/// The byte that stands for "unvisited" on disk, so never a stored friction.
pub const UNVISITED_BYTE: u8 = 0xFF;

/// The tile `update_tile` stores for a color and a friction: frictions above
/// 254 are held at 254.
pub open spec fn stored_tile(color: u8, friction: u16) -> MinimapTile {
    MinimapTile { color, friction: Some((if friction < 254 { friction } else { 254 }) as u8) }
}

/// The explored state of `pos` in `d`, if its chunk is known.
pub open spec fn tile_at(d: MinimapData, pos: Position) -> Option<MinimapTile> {
    match d.chunk(spec_key_and_offset(pos).0) {
        Some(c) => Some(c.tiles[spec_key_and_offset(pos).1]),
        None => None,
    }
}

/// `after` is `before` once `pos` is recorded with `color` and `friction`: the
/// tile is set in its chunk (a fresh, unvisited chunk when there was none), the
/// chunk is marked stale only when the tile changed, and every other chunk is
/// untouched.
pub open spec fn tile_updated(before: MinimapData, after: MinimapData, pos: Position, color: u8, friction: u16) -> bool {
    let (key, offset) = spec_key_and_offset(pos);
    let new_tile = stored_tile(color, friction);
    let old_chunk = match before.chunk(key) {
        Some(c) => c,
        None => ChunkView { tiles: unvisited_chunk(), dirty: false, gpu_dirty: false },
    };
    let changed = old_chunk.tiles[offset] != new_tile;
    &&& after.chunk(key) == Some(
        ChunkView {
            tiles: old_chunk.tiles.update(offset, new_tile),
            dirty: old_chunk.dirty || changed,
            gpu_dirty: old_chunk.gpu_dirty || changed,
        },
    )
    &&& forall|k: ChunkKey| k != key ==> #[trigger] after.chunk(k) == before.chunk(k)
}

impl MinimapData {
    pub closed spec fn chunk(&self, k: ChunkKey) -> Option<ChunkView> {
        if self.chunks@.contains_key(chunk_code(k)) {
            let c = self.chunks@[chunk_code(k)];
            Some(ChunkView { tiles: c.tiles@, dirty: c.dirty, gpu_dirty: c.gpu_dirty })
        } else {
            None
        }
    }

    /// Every chunk is filed under its own key, is a full 64x64 grid, and
    /// stores no friction that the disk format could not tell from "unvisited".
    pub closed spec fn wf(&self) -> bool {
        forall|code: u64| #[trigger] self.chunks@.contains_key(code) ==> {
            &&& chunk_code(self.chunks@[code].key) == code
            &&& self.chunks@[code].tiles@.len() == TILES_PER_CHUNK
            &&& forall|i: int| 0 <= i < TILES_PER_CHUNK ==> #[trigger] self.chunks@[code].tiles@[i].friction
                != Some(UNVISITED_BYTE)
        }
    }

    pub fn new() -> (m: MinimapData)
        ensures
            m.wf(),
            forall|k: ChunkKey| m.chunk(k) is None,
    {
        MinimapData { chunks: HashMap::new() }
    }

    /// Records what the map says of `pos`. A friction above 254 is stored as
    /// 254, which keeps 255 free to mean "unvisited" on disk. A chunk is marked
    /// stale only when the tile actually changed.
    pub fn update_tile(&mut self, pos: &Position, color: u8, friction: u16)
        requires
            old(self).wf(),
        ensures
            final(self).wf(),
            tile_updated(*old(self), *final(self), *pos, color, friction),
    {
        let clamped: u16 = if friction < 254 { friction } else { 254 };
        let new_friction = Some(clamped as u8);
        let (key, offset) = key_and_offset(pos);
        let code = chunk_code_exec(&key);
        let mut chunk = match self.chunks.remove(&code) {
            Some(c) => c,
            None => MinimapChunk { key, tiles: new_chunk_tiles(), dirty: false, gpu_dirty: false },
        };
        proof {
            if old(self).chunks@.contains_key(code) {
                lemma_chunk_code_injective(old(self).chunks@[code].key, key);
            }
        }
        let tile = chunk.tiles[offset];
        if tile.color != color || tile.friction != new_friction {
            chunk.tiles.set(offset, MinimapTile { color, friction: new_friction });
            chunk.dirty = true;
            chunk.gpu_dirty = true;
        } else {
            assert(chunk.tiles@.update(offset as int, MinimapTile { color, friction: new_friction }) =~= chunk.tiles@);
        }
        self.chunks.insert(code, chunk);
        proof {
            assert forall|k: ChunkKey| k != key implies #[trigger] self.chunk(k) == old(self).chunk(k) by {
                lemma_chunk_code_injective(k, key);
            }
            assert(self.chunks@[code].tiles@.len() == TILES_PER_CHUNK);
            assert forall|c: u64| #[trigger] self.chunks@.contains_key(c) implies {
                &&& chunk_code(self.chunks@[c].key) == c
                &&& self.chunks@[c].tiles@.len() == TILES_PER_CHUNK
                &&& forall|i: int| 0 <= i < TILES_PER_CHUNK ==> #[trigger] self.chunks@[c].tiles@[i].friction
                    != Some(UNVISITED_BYTE)
            } by {
                if c != code {
                    assert(old(self).chunks@.contains_key(c));
                }
            }
        }
    }

    /// The explored state of `pos`, if its chunk is known.
    pub fn get_tile(&self, pos: &Position) -> (t: Option<MinimapTile>)
        requires
            self.wf(),
        ensures
            t == tile_at(*self, *pos),
    {
        let (key, offset) = key_and_offset(pos);
        match self.chunks.get(&chunk_code_exec(&key)) {
            Some(c) => Some(c.tiles[offset]),
            None => None,
        }
    }

    fn codes(&self) -> (keys: Vec<u64>)
        ensures
            keys@.to_set() == self.chunks@.dom(),
            keys@.no_duplicates(),
    {
        let ghost s = vstd::std_specs::hash::spec_keys_iter(&self.chunks).remaining();
        let mut keys: Vec<u64> = Vec::new();
        for k in it: self.chunks.keys()
            invariant
                it.seq() == s,
                keys@.len() == it.index(),
                forall|i: int| 0 <= i < it.index() ==> keys@[i] == *s[i],
        {
            keys.push(*k);
        }
        assert(keys@.len() == s.len());
        assert(keys@ =~= s.unref());
        keys
    }

    /// Hands over every chunk of floor `z` whose texture copy is stale, with
    /// its tiles, and marks them fresh. Each such chunk comes out exactly once;
    /// the order is the store's.
    pub fn drain_gpu_dirty(&mut self, z: u8) -> (out: Vec<(ChunkKey, Vec<MinimapTile>)>)
        requires
            old(self).wf(),
        ensures
            final(self).wf(),
            forall|k: ChunkKey| #[trigger] final(self).chunk(k) == match old(self).chunk(k) {
                Some(c) => Some(ChunkView { tiles: c.tiles, dirty: c.dirty, gpu_dirty: c.gpu_dirty && k.z != z }),
                None => None,
            },
            forall|i: int| 0 <= i < out@.len() ==> (#[trigger] old(self).chunk(out@[i].0) matches Some(c) && c.gpu_dirty
                && out@[i].0.z == z && out@[i].1@ == c.tiles),
            forall|k: ChunkKey| (#[trigger] old(self).chunk(k) matches Some(c) && c.gpu_dirty && k.z == z) ==> exists|i: int|
                0 <= i < out@.len() && #[trigger] out@[i].0 == k,
            forall|i: int, j: int| 0 <= i < j < out@.len() ==> out@[i].0 != out@[j].0,
    {
        let codes = self.codes();
        let ghost old_chunks = self.chunks@;
        let ghost mut done: Set<u64> = Set::empty();
        let mut out: Vec<(ChunkKey, Vec<MinimapTile>)> = Vec::new();
        let mut i: usize = 0;
        while i < codes.len()
            invariant
                codes@.to_set() == old_chunks.dom(),
                codes@.no_duplicates(),
                i <= codes@.len(),
                index_wf_of(old_chunks),
                self.chunks@.dom() == old_chunks.dom(),
                forall|j: int| 0 <= j < i ==> done.contains(#[trigger] codes@[j]),
                forall|j: int| i <= j < codes@.len() ==> !done.contains(#[trigger] codes@[j]),
                forall|c: u64| #[trigger] self.chunks@.contains_key(c) ==> {
                    let o = old_chunks[c];
                    let n = self.chunks@[c];
                    &&& n.key == o.key
                    &&& n.tiles@ == o.tiles@
                    &&& n.dirty == o.dirty
                    &&& n.gpu_dirty == if done.contains(c) {
                        o.gpu_dirty && o.key.z != z
                    } else {
                        o.gpu_dirty
                    }
                },
                forall|j: int| 0 <= j < out@.len() ==> {
                    let c = chunk_code(#[trigger] out@[j].0);
                    &&& old_chunks.contains_key(c)
                    &&& done.contains(c)
                    &&& old_chunks[c].gpu_dirty
                    &&& out@[j].0.z == z
                    &&& out@[j].1@ == old_chunks[c].tiles@
                    &&& old_chunks[c].key == out@[j].0
                },
                forall|c: u64| #[trigger] done.contains(c) && old_chunks.contains_key(c) && old_chunks[c].gpu_dirty
                    && old_chunks[c].key.z == z ==> exists|j: int| 0 <= j < out@.len() && chunk_code(#[trigger] out@[j].0) == c,
                forall|a: int, b: int| 0 <= a < b < out@.len() ==> chunk_code(out@[a].0) != chunk_code(out@[b].0),
            decreases codes@.len() - i,
        {
            let code = codes[i];
            assert(codes@.to_set().contains(code));
            let ghost out_before = out@;
            let chunk = self.chunks.remove(&code);
            match chunk {
                Some(mut chunk) => {
                    if chunk.key.z == z && chunk.gpu_dirty {
                        chunk.gpu_dirty = false;
                        let tiles = copy_tiles(&chunk.tiles);
                        out.push((chunk.key, tiles));
                    }
                    self.chunks.insert(code, chunk);
                },
                None => {},
            }
            proof {
                assert(!done.contains(code));
                if out@.len() > out_before.len() {
                    assert(chunk_code(out@[out@.len() - 1].0) == code);
                }
                assert forall|c: u64| #[trigger] done.insert(code).contains(c) && old_chunks.contains_key(c)
                    && old_chunks[c].gpu_dirty && old_chunks[c].key.z == z implies exists|j: int|
                    0 <= j < out@.len() && chunk_code(#[trigger] out@[j].0) == c by {
                    if c == code {
                        assert(chunk_code(out@[out@.len() - 1].0) == c);
                    } else {
                        let j = choose|j: int| 0 <= j < out_before.len() && chunk_code(#[trigger] out_before[j].0) == c;
                        assert(out@[j] == out_before[j]);
                    }
                }
                done = done.insert(code);
                assert forall|j: int| i + 1 <= j < codes@.len() implies !done.contains(#[trigger] codes@[j]) by {
                    assert(codes@[j] != codes@[i as int]);
                }
            }
            i = i + 1;
        }
        proof {
            assert forall|c: u64| old_chunks.contains_key(c) implies done.contains(c) by {
                assert(codes@.to_set().contains(c));
                let j = choose|j: int| 0 <= j < codes@.len() && codes@[j] == c;
                assert(done.contains(codes@[j]));
            }
            assert forall|k: ChunkKey| #[trigger] self.chunk(k) == match old(self).chunk(k) {
                Some(c) => Some(ChunkView { tiles: c.tiles, dirty: c.dirty, gpu_dirty: c.gpu_dirty && k.z != z }),
                None => None,
            } by {
                let c = chunk_code(k);
                if old_chunks.contains_key(c) {
                    lemma_chunk_code_injective(old_chunks[c].key, k);
                }
            }
            assert forall|j: int| 0 <= j < out@.len() implies (#[trigger] old(self).chunk(out@[j].0) matches Some(c)
                && c.gpu_dirty && out@[j].0.z == z && out@[j].1@ == c.tiles) by {
                assert(old_chunks.contains_key(chunk_code(out@[j].0)));
            }
            assert forall|k: ChunkKey| (#[trigger] old(self).chunk(k) matches Some(c) && c.gpu_dirty && k.z == z) implies exists|j: int|
                0 <= j < out@.len() && #[trigger] out@[j].0 == k by {
                let c = chunk_code(k);
                lemma_chunk_code_injective(old_chunks[c].key, k);
                let j = choose|j: int| 0 <= j < out@.len() && chunk_code(#[trigger] out@[j].0) == c;
                lemma_chunk_code_injective(out@[j].0, k);
            }
        }
        out
    }
}

impl MinimapData {
    /// Marks every chunk of floor `z` as needing a repaint.
    pub fn mark_floor_gpu_dirty(&mut self, z: u8)
        requires
            old(self).wf(),
        ensures
            final(self).wf(),
            forall|k: ChunkKey| #[trigger] final(self).chunk(k) == match old(self).chunk(k) {
                Some(c) => Some(ChunkView { tiles: c.tiles, dirty: c.dirty, gpu_dirty: c.gpu_dirty || k.z == z }),
                None => None,
            },
    {
        let codes = self.codes();
        let ghost old_chunks = self.chunks@;
        let ghost mut done: Set<u64> = Set::empty();
        let mut i: usize = 0;
        while i < codes.len()
            invariant
                codes@.to_set() == old_chunks.dom(),
                codes@.no_duplicates(),
                i <= codes@.len(),
                index_wf_of(old_chunks),
                self.chunks@.dom() == old_chunks.dom(),
                forall|j: int| 0 <= j < i ==> done.contains(#[trigger] codes@[j]),
                forall|j: int| i <= j < codes@.len() ==> !done.contains(#[trigger] codes@[j]),
                forall|c: u64| #[trigger] self.chunks@.contains_key(c) ==> {
                    let o = old_chunks[c];
                    let n = self.chunks@[c];
                    &&& n.key == o.key
                    &&& n.tiles@ == o.tiles@
                    &&& n.dirty == o.dirty
                    &&& n.gpu_dirty == if done.contains(c) {
                        o.gpu_dirty || o.key.z == z
                    } else {
                        o.gpu_dirty
                    }
                },
            decreases codes@.len() - i,
        {
            let code = codes[i];
            assert(codes@.to_set().contains(code));
            let chunk = self.chunks.remove(&code);
            match chunk {
                Some(mut chunk) => {
                    if chunk.key.z == z {
                        chunk.gpu_dirty = true;
                    }
                    self.chunks.insert(code, chunk);
                },
                None => {},
            }
            proof {
                done = done.insert(code);
                assert forall|j: int| i + 1 <= j < codes@.len() implies !done.contains(#[trigger] codes@[j]) by {
                    assert(codes@[j] != codes@[i as int]);
                }
            }
            i = i + 1;
        }
        proof {
            assert forall|c: u64| old_chunks.contains_key(c) implies done.contains(c) by {
                assert(codes@.to_set().contains(c));
                let j = choose|j: int| 0 <= j < codes@.len() && codes@[j] == c;
                assert(done.contains(codes@[j]));
            }
            assert forall|k: ChunkKey| #[trigger] self.chunk(k) == match old(self).chunk(k) {
                Some(c) => Some(ChunkView { tiles: c.tiles, dirty: c.dirty, gpu_dirty: c.gpu_dirty || k.z == z }),
                None => None,
            } by {
                let c = chunk_code(k);
                if old_chunks.contains_key(c) {
                    lemma_chunk_code_injective(old_chunks[c].key, k);
                }
            }
        }
    }

    /// Hands over every chunk whose disk copy is stale, encoded for disk, and
    /// marks them saved. Each such chunk comes out exactly once.
    pub fn drain_dirty(&mut self) -> (out: Vec<(ChunkKey, Vec<u8>)>)
        requires
            old(self).wf(),
        ensures
            final(self).wf(),
            forall|k: ChunkKey| #[trigger] final(self).chunk(k) == match old(self).chunk(k) {
                Some(c) => Some(ChunkView { tiles: c.tiles, dirty: false, gpu_dirty: c.gpu_dirty }),
                None => None,
            },
            forall|i: int| 0 <= i < out@.len() ==> (#[trigger] old(self).chunk(out@[i].0) matches Some(c) && c.dirty
                && out@[i].1@ == spec_serialize_chunk(c.tiles)),
            forall|k: ChunkKey| (#[trigger] old(self).chunk(k) matches Some(c) && c.dirty) ==> exists|i: int|
                0 <= i < out@.len() && #[trigger] out@[i].0 == k,
            forall|i: int, j: int| 0 <= i < j < out@.len() ==> out@[i].0 != out@[j].0,
    {
        let codes = self.codes();
        let ghost old_chunks = self.chunks@;
        let ghost mut done: Set<u64> = Set::empty();
        let mut out: Vec<(ChunkKey, Vec<u8>)> = Vec::new();
        let mut i: usize = 0;
        while i < codes.len()
            invariant
                codes@.to_set() == old_chunks.dom(),
                codes@.no_duplicates(),
                i <= codes@.len(),
                index_wf_of(old_chunks),
                self.chunks@.dom() == old_chunks.dom(),
                forall|j: int| 0 <= j < i ==> done.contains(#[trigger] codes@[j]),
                forall|j: int| i <= j < codes@.len() ==> !done.contains(#[trigger] codes@[j]),
                forall|c: u64| #[trigger] self.chunks@.contains_key(c) ==> {
                    let o = old_chunks[c];
                    let n = self.chunks@[c];
                    &&& n.key == o.key
                    &&& n.tiles@ == o.tiles@
                    &&& n.gpu_dirty == o.gpu_dirty
                    &&& n.dirty == if done.contains(c) {
                        false
                    } else {
                        o.dirty
                    }
                },
                forall|j: int| 0 <= j < out@.len() ==> {
                    let c = chunk_code(#[trigger] out@[j].0);
                    &&& old_chunks.contains_key(c)
                    &&& done.contains(c)
                    &&& old_chunks[c].dirty
                    &&& out@[j].1@ == spec_serialize_chunk(old_chunks[c].tiles@)
                    &&& old_chunks[c].key == out@[j].0
                },
                forall|c: u64| #[trigger] done.contains(c) && old_chunks.contains_key(c) && old_chunks[c].dirty
                    ==> exists|j: int| 0 <= j < out@.len() && chunk_code(#[trigger] out@[j].0) == c,
                forall|a: int, b: int| 0 <= a < b < out@.len() ==> chunk_code(out@[a].0) != chunk_code(out@[b].0),
            decreases codes@.len() - i,
        {
            let code = codes[i];
            assert(codes@.to_set().contains(code));
            let ghost out_before = out@;
            let chunk = self.chunks.remove(&code);
            match chunk {
                Some(mut chunk) => {
                    if chunk.dirty {
                        assert(chunk.tiles@.len() == TILES_PER_CHUNK);
                        chunk.dirty = false;
                        let bytes = serialize_chunk(&chunk.tiles);
                        out.push((chunk.key, bytes));
                    }
                    self.chunks.insert(code, chunk);
                },
                None => {},
            }
            proof {
                assert(!done.contains(code));
                if out@.len() > out_before.len() {
                    assert(chunk_code(out@[out@.len() - 1].0) == code);
                }
                assert forall|c: u64| #[trigger] done.insert(code).contains(c) && old_chunks.contains_key(c)
                    && old_chunks[c].dirty implies exists|j: int|
                    0 <= j < out@.len() && chunk_code(#[trigger] out@[j].0) == c by {
                    if c == code {
                        assert(chunk_code(out@[out@.len() - 1].0) == c);
                    } else {
                        let j = choose|j: int| 0 <= j < out_before.len() && chunk_code(#[trigger] out_before[j].0) == c;
                        assert(out@[j] == out_before[j]);
                    }
                }
                done = done.insert(code);
                assert forall|j: int| i + 1 <= j < codes@.len() implies !done.contains(#[trigger] codes@[j]) by {
                    assert(codes@[j] != codes@[i as int]);
                }
            }
            i = i + 1;
        }
        proof {
            assert forall|c: u64| old_chunks.contains_key(c) implies done.contains(c) by {
                assert(codes@.to_set().contains(c));
                let j = choose|j: int| 0 <= j < codes@.len() && codes@[j] == c;
                assert(done.contains(codes@[j]));
            }
            assert forall|k: ChunkKey| #[trigger] self.chunk(k) == match old(self).chunk(k) {
                Some(c) => Some(ChunkView { tiles: c.tiles, dirty: false, gpu_dirty: c.gpu_dirty }),
                None => None,
            } by {
                let c = chunk_code(k);
                if old_chunks.contains_key(c) {
                    lemma_chunk_code_injective(old_chunks[c].key, k);
                }
            }
            assert forall|j: int| 0 <= j < out@.len() implies (#[trigger] old(self).chunk(out@[j].0) matches Some(c)
                && c.dirty && out@[j].1@ == spec_serialize_chunk(c.tiles)) by {
                assert(old_chunks.contains_key(chunk_code(out@[j].0)));
            }
            assert forall|k: ChunkKey| (#[trigger] old(self).chunk(k) matches Some(c) && c.dirty) implies exists|j: int|
                0 <= j < out@.len() && #[trigger] out@[j].0 == k by {
                let c = chunk_code(k);
                lemma_chunk_code_injective(old_chunks[c].key, k);
                let j = choose|j: int| 0 <= j < out@.len() && chunk_code(#[trigger] out@[j].0) == c;
                lemma_chunk_code_injective(out@[j].0, k);
            }
        }
        out
    }

    /// Files a chunk read from disk under `key`: not stale on disk, but still
    /// to be painted.
    pub fn insert_loaded_chunk(&mut self, key: ChunkKey, bytes: &Vec<u8>)
        requires
            old(self).wf(),
        ensures
            final(self).wf(),
            final(self).chunk(key) == Some(
                ChunkView { tiles: spec_deserialize_chunk(bytes@), dirty: false, gpu_dirty: true },
            ),
            forall|k: ChunkKey| k != key ==> #[trigger] final(self).chunk(k) == old(self).chunk(k),
    {
        let code = chunk_code_exec(&key);
        let tiles = deserialize_chunk(bytes);
        self.chunks.insert(code, MinimapChunk { key, tiles, dirty: false, gpu_dirty: true });
        proof {
            assert forall|k: ChunkKey| k != key implies #[trigger] self.chunk(k) == old(self).chunk(k) by {
                lemma_chunk_code_injective(k, key);
            }
            assert forall|c: u64| #[trigger] self.chunks@.contains_key(c) implies {
                &&& chunk_code(self.chunks@[c].key) == c
                &&& self.chunks@[c].tiles@.len() == TILES_PER_CHUNK
                &&& forall|i: int| 0 <= i < TILES_PER_CHUNK ==> #[trigger] self.chunks@[c].tiles@[i].friction
                    != Some(UNVISITED_BYTE)
            } by {
                if c != code {
                    assert(old(self).chunks@.contains_key(c));
                }
            }
        }
    }
}

/// The byte that stores a tile's friction.
pub open spec fn friction_byte(t: MinimapTile) -> u8 {
    match t.friction {
        Some(f) => f,
        None => UNVISITED_BYTE,
    }
}

/// Interleaved `[colour, friction]` pairs, one per tile.
pub open spec fn spec_serialize_chunk(tiles: Seq<MinimapTile>) -> Seq<u8> {
    Seq::new(
        2 * tiles.len(),
        |i: int| if i % 2 == 0 {
            tiles[i / 2].color
        } else {
            friction_byte(tiles[i / 2])
        },
    )
}

pub open spec fn tile_from_bytes(color: u8, friction: u8) -> MinimapTile {
    MinimapTile { color, friction: if friction == UNVISITED_BYTE { None } else { Some(friction) } }
}

/// A full chunk from whatever pairs the bytes hold, unvisited past their end;
/// an odd trailing byte is ignored.
pub open spec fn spec_deserialize_chunk(bytes: Seq<u8>) -> Seq<MinimapTile> {
    Seq::new(
        TILES_PER_CHUNK as nat,
        |i: int| if i < bytes.len() / 2 {
            tile_from_bytes(bytes[2 * i], bytes[2 * i + 1])
        } else {
            MinimapTile { color: 0, friction: None }
        },
    )
}

pub fn serialize_chunk(tiles: &Vec<MinimapTile>) -> (bytes: Vec<u8>)
    requires
        tiles@.len() <= usize::MAX / 2,
    ensures
        bytes@ == spec_serialize_chunk(tiles@),
{
    let mut bytes: Vec<u8> = Vec::new();
    let mut i: usize = 0;
    while i < tiles.len()
        invariant
            i <= tiles@.len() <= usize::MAX / 2,
            bytes@.len() == 2 * i,
            forall|j: int| 0 <= j < 2 * i ==> #[trigger] bytes@[j] == spec_serialize_chunk(tiles@)[j],
        decreases tiles@.len() - i,
    {
        let t = tiles[i];
        bytes.push(t.color);
        bytes.push(
            match t.friction {
                Some(f) => f,
                None => UNVISITED_BYTE,
            },
        );
        proof {
            assert forall|j: int| 0 <= j < 2 * (i + 1) implies #[trigger] bytes@[j] == spec_serialize_chunk(tiles@)[j] by {
                if j >= 2 * i {
                    assert(j / 2 == i) by (nonlinear_arith)
                        requires 2 * i <= j < 2 * i + 2;
                    assert(j % 2 == j - 2 * i) by (nonlinear_arith)
                        requires 2 * i <= j < 2 * i + 2;
                }
            }
        }
        i = i + 1;
    }
    assert(bytes@ =~= spec_serialize_chunk(tiles@));
    bytes
}

pub fn deserialize_chunk(bytes: &Vec<u8>) -> (tiles: Vec<MinimapTile>)
    ensures
        tiles@ == spec_deserialize_chunk(bytes@),
{
    let count = bytes.len() / 2;
    let mut tiles: Vec<MinimapTile> = Vec::new();
    let mut i: usize = 0;
    while i < TILES_PER_CHUNK
        invariant
            i <= TILES_PER_CHUNK,
            count == bytes@.len() / 2,
            tiles@.len() == i,
            forall|j: int| 0 <= j < i ==> #[trigger] tiles@[j] == spec_deserialize_chunk(bytes@)[j],
        decreases TILES_PER_CHUNK - i,
    {
        if i < count {
            let f = bytes[2 * i + 1];
            tiles.push(
                MinimapTile { color: bytes[2 * i], friction: if f == UNVISITED_BYTE { None } else { Some(f) } },
            );
        } else {
            tiles.push(MinimapTile::unvisited());
        }
        i = i + 1;
    }
    assert(tiles@ =~= spec_deserialize_chunk(bytes@));
    tiles
}

/// Writing a stored chunk to disk and reading it back gives the same chunk.
pub proof fn lemma_chunk_round_trip(tiles: Seq<MinimapTile>)
    requires
        tiles.len() == TILES_PER_CHUNK,
        forall|i: int| 0 <= i < tiles.len() ==> #[trigger] tiles[i].friction != Some(UNVISITED_BYTE),
    ensures
        spec_deserialize_chunk(spec_serialize_chunk(tiles)) == tiles,
{
    let b = spec_serialize_chunk(tiles);
    assert forall|i: int| 0 <= i < TILES_PER_CHUNK implies #[trigger] spec_deserialize_chunk(b)[i] == tiles[i] by {
        assert((2 * i) / 2 == i && (2 * i) % 2 == 0 && (2 * i + 1) / 2 == i && (2 * i + 1) % 2 == 1) by (nonlinear_arith)
            requires 0 <= i;
        assert(b.len() / 2 == TILES_PER_CHUNK);
    }
    assert(spec_deserialize_chunk(b) =~= tiles);
}

/// Every chunk the store holds survives a trip to disk and back.
pub proof fn lemma_stored_chunks_round_trip(data: MinimapData, k: ChunkKey)
    requires
        data.wf(),
        data.chunk(k) is Some,
    ensures
        spec_deserialize_chunk(spec_serialize_chunk(data.chunk(k).unwrap().tiles)) == data.chunk(k).unwrap().tiles,
{
    let c = chunk_code(k);
    assert(data.chunks@.contains_key(c));
    lemma_chunk_round_trip(data.chunk(k).unwrap().tiles);
}

pub open spec fn index_wf_of(chunks: Map<u64, MinimapChunk>) -> bool {
    forall|code: u64| #[trigger] chunks.contains_key(code) ==> {
        &&& chunk_code(chunks[code].key) == code
        &&& chunks[code].tiles@.len() == TILES_PER_CHUNK
        &&& forall|i: int| 0 <= i < TILES_PER_CHUNK ==> #[trigger] chunks[code].tiles@[i].friction != Some(UNVISITED_BYTE)
    }
}

fn copy_tiles(tiles: &Vec<MinimapTile>) -> (r: Vec<MinimapTile>)
    ensures
        r@ == tiles@,
{
    let mut r: Vec<MinimapTile> = Vec::new();
    let mut i: usize = 0;
    while i < tiles.len()
        invariant
            i <= tiles@.len(),
            r@ == tiles@.subrange(0, i as int),
        decreases tiles@.len() - i,
    {
        r.push(tiles[i]);
        i = i + 1;
    }
    assert(tiles@.subrange(0, tiles@.len() as int) =~= tiles@);
    r
}

/// Distinct chunks are filed under distinct codes.
pub proof fn lemma_chunk_code_injective(a: ChunkKey, b: ChunkKey)
    ensures
        chunk_code(a) == chunk_code(b) ==> a == b,
{
    lemma_position_key_injective(Position { x: a.cx, y: a.cy, z: a.z }, Position { x: b.cx, y: b.cy, z: b.z });
}

/// Every stored chunk is a full grid.
pub proof fn lemma_stored_chunk_is_full(d: MinimapData, k: ChunkKey)
    requires
        d.wf(),
        d.chunk(k) is Some,
    ensures
        d.chunk(k).unwrap().tiles.len() == TILES_PER_CHUNK,
{
}

/// Two positions share a chunk and a place in it only when they are the same.
proof fn lemma_key_and_offset_injective(p: Position, q: Position)
    requires
        spec_key_and_offset(p) == spec_key_and_offset(q),
    ensures
        p == q,
{
    assert(p.x == (p.x / 64) * 64 + p.x % 64);
    assert(q.x == (q.x / 64) * 64 + q.x % 64);
    assert(p.y == (p.y / 64) * 64 + p.y % 64);
    assert(q.y == (q.y / 64) * 64 + q.y % 64);
    assert(p.x % 64 == q.x % 64 && p.y % 64 == q.y % 64) by {
        let a = (p.y % 64) * 64 + p.x % 64;
        let b = (q.y % 64) * 64 + q.x % 64;
        assert(a == b);
        assert(0 <= p.x % 64 < 64 && 0 <= q.x % 64 < 64);
        assert(a % 64 == p.x % 64) by (nonlinear_arith)
            requires
                a == (p.y % 64) * 64 + p.x % 64,
                0 <= p.x % 64 < 64,
                0 <= p.y % 64,
        ;
        assert(b % 64 == q.x % 64) by (nonlinear_arith)
            requires
                b == (q.y % 64) * 64 + q.x % 64,
                0 <= q.x % 64 < 64,
                0 <= q.y % 64,
        ;
    }
}

/// Reading a tile back after recording it gives what was recorded, and every
/// other tile reads as before, except that the rest of a chunk seen for the
/// first time reads as unvisited.
pub proof fn lemma_read_gives_back_write(
    before: MinimapData,
    after: MinimapData,
    pos: Position,
    color: u8,
    friction: u16,
    other: Position,
)
    requires
        before.wf(),
        tile_updated(before, after, pos, color, friction),
    ensures
        tile_at(after, pos) == Some(stored_tile(color, friction)),
        other != pos ==> tile_at(after, other) == tile_at(before, other) || (tile_at(before, other) is None
            && tile_at(after, other) == Some(MinimapTile { color: 0, friction: None })),
{
    let (key, offset) = spec_key_and_offset(pos);
    let (okey, ooffset) = spec_key_and_offset(other);
    assert(0 <= offset < TILES_PER_CHUNK) by (nonlinear_arith)
        requires
            offset == (pos.y % 64) * 64 + (pos.x % 64),
    ;
    assert(0 <= ooffset < TILES_PER_CHUNK) by (nonlinear_arith)
        requires
            ooffset == (other.y % 64) * 64 + (other.x % 64),
    ;
    if before.chunk(key) is Some {
        lemma_stored_chunk_is_full(before, key);
    }
    if other != pos && okey == key {
        if ooffset == offset {
            lemma_key_and_offset_injective(pos, other);
        }
    }
}
} // verus!
