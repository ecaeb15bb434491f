//! A falling-block puzzle engine: a fixed 10x20 occupancy grid, the seven
//! canonical tetromino pieces with 90-degree rotation, a bag randomizer that
//! deals each of the seven kinds exactly once per refill, and the game state
//! machine covering movement, locking, line clearing, scoring, leveling,
//! hold semantics and pause. Terminal input decoding and the high-score table
//! logic live here too; the actual terminal I/O, threads and persistence are
//! left to the embedding program.

pub mod util;
pub mod piece;
pub mod board;
pub mod game;
pub mod input;
pub mod scores;
