use vstd::prelude::*;

use crate::agent::WalkingDirection;

verus! {

/// A tile of the world: `x`, `y` on the floor, `z` the floor itself.
#[derive(Clone, Copy, Debug, PartialEq, Eq, Hash, Structural)]
pub struct Position {
    pub x: u16,
    pub y: u16,
    pub z: u8,
}

/// A coordinate moved by `d` tiles, wrapping at the edge of the `u16` range as
/// the client's integer casts do.
pub open spec fn wrap_coord(c: u16, d: int) -> u16 {
    ((c as int + d) % 65536) as u16
}

/// `c + d` taken modulo the coordinate range. The offset added first is a
/// multiple of 65536 that keeps the sum non-negative for every `i32`.
fn wrap_exec(c: u16, d: i32) -> (r: u16)
    ensures
        r == wrap_coord(c, d as int),
{
    let t: u64 = ((c as i64) + (d as i64) + 2147549184i64) as u64;
    let r = (t % 65536) as u16;
    assert(2147549184 == 32769 * 65536);
    assert((t as int) % 65536 == (c as int + d as int) % 65536) by (nonlinear_arith)
        requires t as int == c as int + d as int + 32769 * 65536;
    r
}

/// The tile delta a walking direction names, `y` growing southwards.
pub open spec fn direction_delta(dir: WalkingDirection) -> (int, int) {
    match dir {
        WalkingDirection::North => (0, -1),
        WalkingDirection::East => (1, 0),
        WalkingDirection::South => (0, 1),
        WalkingDirection::West => (-1, 0),
        WalkingDirection::NorthEast => (1, -1),
        WalkingDirection::SouthEast => (1, 1),
        WalkingDirection::NorthWest => (-1, -1),
        WalkingDirection::SouthWest => (-1, 1),
    }
}

/// A position packed into one integer, distinct for distinct positions: the key
/// under which tiles are stored.
pub open spec fn position_key(p: Position) -> u64 {
    (p.x as int * 0x1000000 + p.y as int * 0x100 + p.z as int) as u64
}

impl Position {
    pub fn new(x: u16, y: u16, z: u8) -> (p: Position)
        ensures
            p == (Position { x, y, z }),
    {
        Position { x, y, z }
    }

    /// The tile `(x, y)` away on the same floor.
    pub fn delta(&self, x: i32, y: i32) -> (p: Position)
        ensures
            p.x == wrap_coord(self.x, x as int),
            p.y == wrap_coord(self.y, y as int),
            p.z == self.z,
    {
        Position { x: wrap_exec(self.x, x), y: wrap_exec(self.y, y), z: self.z }
    }

    /// One step in `dir`.
    pub fn step(&self, dir: WalkingDirection) -> (p: Position)
        ensures
            p.x == wrap_coord(self.x, direction_delta(dir).0),
            p.y == wrap_coord(self.y, direction_delta(dir).1),
            p.z == self.z,
    {
        match dir {
            WalkingDirection::North => self.delta(0, -1),
            WalkingDirection::East => self.delta(1, 0),
            WalkingDirection::South => self.delta(0, 1),
            WalkingDirection::West => self.delta(-1, 0),
            WalkingDirection::NorthEast => self.delta(1, -1),
            WalkingDirection::SouthEast => self.delta(1, 1),
            WalkingDirection::NorthWest => self.delta(-1, -1),
            WalkingDirection::SouthWest => self.delta(-1, 1),
        }
    }

    /// One step against `dir`: the tile a step in `dir` came from.
    pub fn step_back(&self, dir: WalkingDirection) -> (p: Position)
        ensures
            p.x == wrap_coord(self.x, -direction_delta(dir).0),
            p.y == wrap_coord(self.y, -direction_delta(dir).1),
            p.z == self.z,
    {
        match dir {
            WalkingDirection::North => self.delta(0, 1),
            WalkingDirection::East => self.delta(-1, 0),
            WalkingDirection::South => self.delta(0, -1),
            WalkingDirection::West => self.delta(1, 0),
            WalkingDirection::NorthEast => self.delta(-1, 1),
            WalkingDirection::SouthEast => self.delta(-1, -1),
            WalkingDirection::NorthWest => self.delta(1, 1),
            WalkingDirection::SouthWest => self.delta(1, -1),
        }
    }

    /// The position's storage key.
    pub fn key(&self) -> (k: u64)
        ensures
            k == position_key(*self),
    {
        (self.x as u64) * 0x1000000 + (self.y as u64) * 0x100 + (self.z as u64)
    }
}

/// Stepping back undoes a step, in every direction and at the map's edges.
pub proof fn lemma_step_back_undoes_step(p: Position, dir: WalkingDirection)
    ensures
        ({
            let q = Position {
                x: wrap_coord(p.x, direction_delta(dir).0),
                y: wrap_coord(p.y, direction_delta(dir).1),
                z: p.z,
            };
            Position {
                x: wrap_coord(q.x, -direction_delta(dir).0),
                y: wrap_coord(q.y, -direction_delta(dir).1),
                z: q.z,
            } == p
        }),
{
    let (dx, dy) = direction_delta(dir);
    lemma_wrap_cancels(p.x, dx);
    lemma_wrap_cancels(p.y, dy);
}

proof fn lemma_wrap_cancels(c: u16, d: int)
    requires
        -1 <= d <= 1,
    ensures
        wrap_coord(wrap_coord(c, d), -d) == c,
{
    let a = c as int + d;
    if a < 0 {
        assert(a % 65536 == 65535) by (nonlinear_arith) requires a == -1;
    } else if a >= 65536 {
        assert(a % 65536 == 0) by (nonlinear_arith) requires a == 65536;
    } else {
        assert(a % 65536 == a) by (nonlinear_arith) requires 0 <= a < 65536;
    }
    let b = wrap_coord(c, d) as int - d;
    if b < 0 {
        assert(b % 65536 == 65535) by (nonlinear_arith) requires b == -1;
    } else if b >= 65536 {
        assert(b % 65536 == 0) by (nonlinear_arith) requires b == 65536;
    } else {
        assert(b % 65536 == b) by (nonlinear_arith) requires 0 <= b < 65536;
    }
}

/// Distinct positions never share a storage key.
pub proof fn lemma_position_key_injective(p: Position, q: Position)
    ensures
        position_key(p) == position_key(q) ==> p == q,
{
    let kp = p.x as int * 0x1000000 + p.y as int * 0x100 + p.z as int;
    let kq = q.x as int * 0x1000000 + q.y as int * 0x100 + q.z as int;
    assert(0 <= kp < 0x10000000000) by (nonlinear_arith)
        requires kp == p.x as int * 0x1000000 + p.y as int * 0x100 + p.z as int, p.x < 65536, p.y < 65536, p.z < 256;
    assert(0 <= kq < 0x10000000000) by (nonlinear_arith)
        requires kq == q.x as int * 0x1000000 + q.y as int * 0x100 + q.z as int, q.x < 65536, q.y < 65536, q.z < 256;
    if position_key(p) == position_key(q) {
        assert(kp == kq);
        assert(p.z == q.z && p.y == q.y && p.x == q.x) by (nonlinear_arith)
            requires
                kp == kq,
                kp == p.x as int * 0x1000000 + p.y as int * 0x100 + p.z as int,
                kq == q.x as int * 0x1000000 + q.y as int * 0x100 + q.z as int,
                0 <= p.x < 65536, 0 <= p.y < 65536, 0 <= p.z < 256,
                0 <= q.x < 65536, 0 <= q.y < 65536, 0 <= q.z < 256;
    }
}

} // verus!
