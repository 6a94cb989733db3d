use vstd::prelude::*;

use crate::appearance::sprite::{
    spec_loop_mode, spec_never_advances, spec_pass_sum, spec_saturate_u64, spec_total_phases,
    AnimationLoop, SpriteAnimation, SpriteBox, SpriteConfig,
};
use crate::conf::STATIC_EFFECT_MS;
use crate::map::position::{wrap_coord, Position};

verus! {

/// Every tile an effect message paints: its base tile, then each offset in turn,
/// on the base tile's floor.
pub fn effect_tiles(base: &Position, delta: &Vec<(i8, i8)>) -> (tiles: Vec<Position>)
    ensures
        tiles@.len() == delta@.len() + 1,
        tiles@[0] == *base,
        forall|i: int|
            0 <= i < delta@.len() ==> #[trigger] tiles@[i + 1] == (Position {
                x: wrap_coord(base.x, delta@[i].0 as int),
                y: wrap_coord(base.y, delta@[i].1 as int),
                z: base.z,
            }),
{
    let mut tiles: Vec<Position> = Vec::new();
    tiles.push(*base);
    let mut i: usize = 0;
    while i < delta.len()
        invariant
            i <= delta@.len(),
            tiles@.len() == i + 1,
            tiles@[0] == *base,
            forall|k: int|
                0 <= k < i ==> #[trigger] tiles@[k + 1] == (Position {
                    x: wrap_coord(base.x, delta@[k].0 as int),
                    y: wrap_coord(base.y, delta@[k].1 as int),
                    z: base.z,
                }),
        decreases delta@.len() - i,
    {
        let (dx, dy) = delta[i];
        tiles.push(base.delta(dx as i32, dy as i32));
        i = i + 1;
    }
    tiles
}

/// The pattern a tile draws, from its own absolute coordinates: what tiles a
/// multi-cell effect seamlessly across an area and keeps a repeat from shimmering.
pub fn pattern_for(position: &Position, sprite: &SpriteConfig) -> (p: (u32, u32))
    ensures
        p.0 == (position.x as int) % (if sprite.pattern_x == 0 { 1 } else { sprite.pattern_x as int }),
        p.1 == (position.y as int) % (if sprite.pattern_y == 0 { 1 } else { sprite.pattern_y as int }),
{
    let px = if sprite.pattern_x == 0 {
        1
    } else {
        sprite.pattern_x
    };
    let py = if sprite.pattern_y == 0 {
        1
    } else {
        sprite.pattern_y
    };
    ((position.x as u32) % px, (position.y as u32) % py)
}

/// The box an effect instance is clipped to: the config's box for its
/// `pattern_x` (boxes are indexed by that alone, not per phase), or the whole
/// sprite when the config has none there. A box's `max` pair is a size.
pub fn instance_box(sprite: &SpriteConfig, sprite_w: u64, sprite_h: u64, pattern_x: u32) -> (b:
    SpriteBox)
    ensures
        (pattern_x as int) < sprite.boxes@.len() ==> b == sprite.boxes@[pattern_x as int],
        (pattern_x as int) >= sprite.boxes@.len() ==> b == (SpriteBox {
            min_x: 0,
            min_y: 0,
            max_x: sprite_w,
            max_y: sprite_h,
        }),
{
    if (pattern_x as usize) < sprite.boxes.len() {
        sprite.boxes[pattern_x as usize]
    } else {
        SpriteBox { min_x: 0, min_y: 0, max_x: sprite_w, max_y: sprite_h }
    }
}

/// How long an effect lives, in milliseconds, or `None` when its own animation
/// ends it. A counted run ends itself (its count is a number of runs, not of
/// phases); an animation that never advances lives the static time; an endless
/// one lives one pass of its phases.
pub fn lifetime(animation: &SpriteAnimation) -> (ttl: Option<u64>)
    ensures
        spec_never_advances(*animation) ==> ttl == Some(STATIC_EFFECT_MS),
        !spec_never_advances(*animation) && spec_loop_mode(*animation) is Counted ==> ttl is None,
        !spec_never_advances(*animation) && !(spec_loop_mode(*animation) is Counted) ==> (ttl
            matches Some(ms) && spec_saturate_u64(
            spec_pass_sum(*animation, spec_total_phases(*animation) as int, false),
        ) <= ms <= spec_saturate_u64(
            spec_pass_sum(*animation, spec_total_phases(*animation) as int, true),
        )),
{
    if animation.never_advances() {
        return Some(STATIC_EFFECT_MS);
    }
    match animation.loop_mode() {
        AnimationLoop::Counted { .. } => None,
        AnimationLoop::Infinite | AnimationLoop::PingPong => Some(animation.pass_duration()),
    }
}

/// A live effect's clock: a one-shot timer when its lifetime is fixed, none when
/// its animator decides.
pub struct Effect {
    pub ttl_ms: Option<u64>,
    pub elapsed_ms: u64,
}

impl Effect {
    pub fn new(ttl_ms: Option<u64>) -> (e: Effect)
        ensures
            e.ttl_ms == ttl_ms,
            e.elapsed_ms == 0,
    {
        Effect { ttl_ms, elapsed_ms: 0 }
    }

    /// Whether the effect is done after `delta_ms` more: the frame its timer runs
    /// out, or, with no timer, once its animator has finished.
    pub fn tick(&mut self, delta_ms: u64, animation_finished: bool) -> (done: bool)
        ensures
            old(self).ttl_ms is None ==> done == animation_finished && *final(self) == *old(self),
            old(self).ttl_ms matches Some(d) ==> ({
                let total = if old(self).elapsed_ms + delta_ms > d {
                    d as int
                } else {
                    old(self).elapsed_ms + delta_ms
                };
                &&& final(self).ttl_ms == old(self).ttl_ms
                &&& final(self).elapsed_ms == total
                &&& done == (old(self).elapsed_ms < d && total >= d)
            }),
    {
        match self.ttl_ms {
            None => animation_finished,
            Some(d) => {
                let before = self.elapsed_ms;
                let total = if delta_ms > d || before > d - delta_ms {
                    d
                } else {
                    before + delta_ms
                };
                self.elapsed_ms = total;
                before < d && total >= d
            },
        }
    }
}

} // verus!
