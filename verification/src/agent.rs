//! Creatures on the map: their ids, facing and walking directions, step
//! timing, outfit sprite selection and the queue of steps still to walk.

use vstd::prelude::*;

pub mod movement;
pub mod outfit;

verus! {

/// An agent as this player's session names it.
#[derive(Clone, Copy, Debug, PartialEq, Eq, Hash, Structural)]
pub struct AgentId(pub u16);

/// The four directions a creature's sprite can face.
#[derive(Clone, Copy, Debug, PartialEq, Eq, Structural)]
pub enum FacingDirection {
    North,
    East,
    South,
    West,
}

/// The eight directions a creature can step in.
#[derive(Clone, Copy, Debug, PartialEq, Eq, Structural)]
pub enum WalkingDirection {
    North,
    South,
    East,
    West,
    NorthEast,
    NorthWest,
    SouthEast,
    SouthWest,
}

pub open spec fn spec_is_diagonal(d: WalkingDirection) -> bool {
    d is NorthEast || d is NorthWest || d is SouthEast || d is SouthWest
}

impl WalkingDirection {
    pub fn is_diagonal(self) -> (b: bool)
        ensures
            b == spec_is_diagonal(self),
    {
        match self {
            WalkingDirection::NorthEast
            | WalkingDirection::NorthWest
            | WalkingDirection::SouthEast
            | WalkingDirection::SouthWest => true,
            _ => false,
        }
    }

    /// The way a creature faces while taking this step: a diagonal shows its
    /// east or west profile.
    pub fn facing(&self) -> (f: FacingDirection)
        ensures
            f == match *self {
                WalkingDirection::North => FacingDirection::North,
                WalkingDirection::South => FacingDirection::South,
                WalkingDirection::East | WalkingDirection::NorthEast | WalkingDirection::SouthEast => FacingDirection::East,
                WalkingDirection::West | WalkingDirection::NorthWest | WalkingDirection::SouthWest => FacingDirection::West,
            },
    {
        match self {
            WalkingDirection::North => FacingDirection::North,
            WalkingDirection::East => FacingDirection::East,
            WalkingDirection::South => FacingDirection::South,
            WalkingDirection::West => FacingDirection::West,
            WalkingDirection::NorthEast => FacingDirection::East,
            WalkingDirection::SouthEast => FacingDirection::East,
            WalkingDirection::NorthWest => FacingDirection::West,
            WalkingDirection::SouthWest => FacingDirection::West,
        }
    }
}

} // verus!
