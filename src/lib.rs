//! The "Second Best" ring-and-stack game: its board, its rules and a computer
//! opponent that ranks turns by an exhaustive, depth-bounded average over all
//! continuations.
pub mod game;
pub mod bot;
pub mod search;
pub mod io;
pub mod player;
pub mod laws;
