//! Rule engine of a sliding-tile merge puzzle played on a 4x4 grid: the grid itself, the
//! slide-and-merge step, tile spawning, scoring and the detection of the end of a game.

pub mod board;
pub mod event;
pub mod game;
pub mod laws;
pub mod layout;
pub mod mass;
pub mod merge;
pub mod random;
pub mod slide;
pub mod stuck;
