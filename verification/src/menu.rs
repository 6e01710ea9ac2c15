//! What the menus decide about the game itself.

pub mod pause;
