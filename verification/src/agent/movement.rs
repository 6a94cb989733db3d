use std::collections::VecDeque;

use vstd::prelude::*;

use crate::agent::{FacingDirection, WalkingDirection};
use crate::conf::{DIAGONAL_STEP_FACTOR, TICK_DURATION_MS};
use crate::map::draw_order::DrawLayer;
use crate::map::position::{direction_delta, wrap_coord, Position};
use crate::map::storage::{friction_from, spec_can_walk, WorldMap};

verus! {

/// How long one step takes, in milliseconds, for a creature whose movement
/// speed is `move_speed` crossing a tile of `tile_friction`: the friction over
/// the speed, in whole milliseconds, rounded up to whole server ticks, and three
/// times that on a diagonal.
pub open spec fn step_duration_spec(move_speed: int, tile_friction: int, is_diagonal: bool) -> int {
    let tile_ms = (1000 * tile_friction) / move_speed;
    let ticks = (tile_ms + TICK_DURATION_MS - 1) / (TICK_DURATION_MS as int);
    let step = ticks * TICK_DURATION_MS;
    if is_diagonal {
        step * DIAGONAL_STEP_FACTOR
    } else {
        step
    }
}

pub fn step_duration_ms(move_speed: u32, tile_friction: u16, is_diagonal: bool) -> (ms: u32)
    requires
        move_speed >= 1,
    ensures
        ms == step_duration_spec(move_speed as int, tile_friction as int, is_diagonal),
{
    let tile_ms: u32 = (1000 * (tile_friction as u32)) / move_speed;
    assert(tile_ms <= 65535000) by (nonlinear_arith)
        requires
            tile_ms == (1000 * (tile_friction as int)) / (move_speed as int),
            move_speed >= 1,
            tile_friction <= 65535,
    ;
    let step = ((tile_ms + 49) / 50) * 50;
    if is_diagonal {
        step * 3
    } else {
        step
    }
}

/// What starting a step comes to: with no friction known for the destination
/// the creature is placed there at once, else it slides there over the step's
/// duration. Either way it turns to face the step.
#[derive(Debug, Clone, Copy, PartialEq, Eq, Structural)]
pub enum StepPlan {
    Snap { facing: FacingDirection, end: Position },
    Slide { facing: FacingDirection, start: Position, end: Position, duration_ms: u32 },
}

pub open spec fn step_end(start: Position, direction: WalkingDirection) -> Position {
    Position {
        x: wrap_coord(start.x, direction_delta(direction).0),
        y: wrap_coord(start.y, direction_delta(direction).1),
        z: start.z,
    }
}

pub fn plan_step(map: &WorldMap, start: Position, direction: WalkingDirection, move_speed: u32) -> (plan:
    StepPlan)
    requires
        move_speed >= 1,
    ensures
        ({
            let end = step_end(start, direction);
            let friction = if spec_can_walk(map.tile(end)) {
                friction_from(map.spec_items_on(end), 0)
            } else {
                None
            };
            match friction {
                None => plan == StepPlan::Snap { facing: direction_facing(direction), end },
                Some(f) => plan == StepPlan::Slide {
                    facing: direction_facing(direction),
                    start,
                    end,
                    duration_ms: step_duration_spec(move_speed as int, f as int, false) as u32,
                },
            }
        }),
{
    let facing = direction.facing();
    let end = start.step(direction);
    match map.get_tile_friction(&end) {
        None => StepPlan::Snap { facing, end },
        Some(friction) => StepPlan::Slide {
            facing,
            start,
            end,
            duration_ms: step_duration_ms(move_speed, friction, false),
        },
    }
}

pub open spec fn direction_facing(d: WalkingDirection) -> FacingDirection {
    match d {
        WalkingDirection::North => FacingDirection::North,
        WalkingDirection::South => FacingDirection::South,
        WalkingDirection::East | WalkingDirection::NorthEast | WalkingDirection::SouthEast => FacingDirection::East,
        WalkingDirection::West | WalkingDirection::NorthWest | WalkingDirection::SouthWest => FacingDirection::West,
    }
}

/// A step in progress: where it runs from and to, and its one-shot timer.
#[derive(Debug, Clone, Copy, PartialEq, Eq, Structural)]
pub struct Moving {
    pub start: Position,
    pub end: Position,
    pub duration_ms: u64,
    pub elapsed_ms: u64,
}

impl Moving {
    pub fn new(start: Position, end: Position, duration_ms: u64) -> (m: Moving)
        ensures
            m == (Moving { start, end, duration_ms, elapsed_ms: 0 }),
    {
        Moving { start, end, duration_ms, elapsed_ms: 0 }
    }

    /// Runs the step's clock on; true once the step is complete.
    pub fn tick(&mut self, delta_ms: u64) -> (done: bool)
        ensures
            final(self).start == old(self).start,
            final(self).end == old(self).end,
            final(self).duration_ms == old(self).duration_ms,
            final(self).elapsed_ms == if old(self).elapsed_ms + delta_ms > old(self).duration_ms {
                old(self).duration_ms as int
            } else {
                old(self).elapsed_ms + delta_ms
            },
            done == (final(self).elapsed_ms >= final(self).duration_ms),
    {
        let d = self.duration_ms;
        self.elapsed_ms = if delta_ms > d || self.elapsed_ms > d - delta_ms {
            d
        } else {
            self.elapsed_ms + delta_ms
        };
        self.elapsed_ms >= d
    }

    /// The walking animation's phase for how far the step has come: the elapsed
    /// share of `phase_count` phases, never past the last.
    pub fn walk_phase(&self, phase_count: u32) -> (p: u32)
        ensures
            p == if phase_count <= 1 {
                0
            } else if self.duration_ms == 0 || self.elapsed_ms >= self.duration_ms {
                (phase_count - 1) as int
            } else {
                (self.elapsed_ms * phase_count) / (self.duration_ms as int)
            },
    {
        if phase_count <= 1 {
            return 0;
        }
        if self.duration_ms == 0 || self.elapsed_ms >= self.duration_ms {
            return phase_count - 1;
        }
        let (e, c) = (self.elapsed_ms as u128, phase_count as u128);
        assert(e * c < 0x1_0000_0000_0000_0000_0000_0000) by (nonlinear_arith)
            requires
                e < 0x1_0000_0000_0000_0000,
                c < 0x1_0000_0000,
        ;
        let p = (e * c) / (self.duration_ms as u128);
        assert(p < phase_count) by (nonlinear_arith)
            requires
                p == ((self.elapsed_ms as int) * (phase_count as int)) / (self.duration_ms as int),
                self.elapsed_ms < self.duration_ms,
                phase_count > 1,
        ;
        p as u32
    }
}

/// The layer a creature mid-step draws in on `tile`: its own on either end of
/// the step, and the passing-through layer on the corner tile a diagonal cuts.
pub fn step_layer(tile: Position, start: Position, end: Position) -> (l: DrawLayer)
    ensures
        l == if tile == start || tile == end {
            DrawLayer::Creature
        } else {
            DrawLayer::PassingThrough
        },
{
    if tile == start || tile == end {
        DrawLayer::Creature
    } else {
        DrawLayer::PassingThrough
    }
}

/// What a creature with a queue of steps does once it stands still.
#[derive(Debug, Clone, Copy, PartialEq, Eq, Structural)]
pub enum QueuedMove {
    /// Nothing is queued.
    Idle,
    /// The next step started elsewhere than the creature stands and more follow:
    /// it is dropped.
    Dropped,
    /// Start this step, first placing the creature on `snap_to` when it is
    /// somewhere else.
    Start { snap_to: Option<Position>, direction: WalkingDirection },
}

/// Takes the next queued step for a creature standing on `position`. A step
/// from elsewhere is taken from where it starts when it is the last one queued,
/// and dropped otherwise.
pub fn next_queued_move(queue: &mut VecDeque<(Position, WalkingDirection)>, position: Position) -> (m:
    QueuedMove)
    ensures
        old(queue)@.len() == 0 ==> m == QueuedMove::Idle && final(queue)@ == old(queue)@,
        old(queue)@.len() > 0 ==> final(queue)@ == old(queue)@.drop_first() && ({
            let (from, direction) = old(queue)@[0];
            if from == position {
                m == QueuedMove::Start { snap_to: None, direction }
            } else if old(queue)@.len() == 1 {
                m == QueuedMove::Start { snap_to: Some(from), direction }
            } else {
                m == QueuedMove::Dropped
            }
        }),
{
    match queue.pop_front() {
        None => QueuedMove::Idle,
        Some((from, direction)) => {
            if from != position {
                if queue.len() == 0 {
                    QueuedMove::Start { snap_to: Some(from), direction }
                } else {
                    QueuedMove::Dropped
                }
            } else {
                QueuedMove::Start { snap_to: None, direction }
            }
        },
    }
}

/// What a move the server announces does: a creature mid-step queues it; one
/// standing still starts it at once, first placed on the step's origin when it
/// stands elsewhere.
pub fn on_move_agent(
    queue: &mut VecDeque<(Position, WalkingDirection)>,
    moving: bool,
    position: Position,
    from: Position,
    direction: WalkingDirection,
) -> (m: Option<QueuedMove>)
    ensures
        moving ==> m is None && final(queue)@ == old(queue)@.push((from, direction)),
        !moving ==> final(queue)@ == old(queue)@ && m == Some(
            QueuedMove::Start {
                snap_to: if position == from {
                    None
                } else {
                    Some(from)
                },
                direction,
            },
        ),
{
    if moving {
        queue.push_back((from, direction));
        return None;
    }
    let snap_to = if position != from {
        Some(from)
    } else {
        None
    };
    Some(QueuedMove::Start { snap_to, direction })
}

} // verus!
