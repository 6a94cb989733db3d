//! The action bar: what each slot does and which key fires it, what firing it
//! means, the dialogs that assign slots, and the file the bar is saved in.

pub mod state;
pub mod dialogs;
pub mod activation;
pub mod persistence;
