//! What things look like: sprite configs and their animations, the animator
//! state machine that walks an animation's phases, and the rules for effects.

pub mod sprite;
pub mod animation;
pub mod effects;
pub mod config;
