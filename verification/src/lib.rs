//! The game-client logic of Rustibia: the map and its draw order, the
//! animation state machines, chat routing, the action bar, and the small rules
//! around items, spells and the UI, each proved against its contract.

pub mod conf;
pub mod map;
pub mod agent;
pub mod appearance;
pub mod items;
pub mod text;
pub mod chat;
pub mod spells;
pub mod action_bar;
pub mod floating_text;
pub mod ui;
