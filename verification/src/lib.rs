//! Core of a terminal launcher for locally installed Steam games: the game
//! library model, the parsing of Steam's metadata files, and the state machine
//! that the key bindings drive.

pub mod model;
pub mod text;
pub mod order;
pub mod app;
pub mod app_laws;
pub mod playtimes;
pub mod vdf;
pub mod library;
pub mod layout;
