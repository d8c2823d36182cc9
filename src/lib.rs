//! Extraction of the running game status from a game engine's diagnostic log.

pub mod state;
pub mod text;
pub mod grammar;
pub mod logfile;
