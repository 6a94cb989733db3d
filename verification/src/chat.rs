//! The chat: open tabs and their history, private correspondents, and where a
//! message goes in and out.

pub mod messages;
pub mod state;
pub mod routing;
pub mod network;
pub mod input;
