//! Rules kernel of the board game Piranhas, played on a 10x10 grid held in three 128-bit
//! bitboards, with the integer parts of its search engines.
//!
//! - `bits`, `bitboard`: the bit-level model of a word and the grid on top of it.
//! - `states`, `board`, `gamestate`: colors, moves, the board and the position.
//! - `iterators`, `gamerules`, `swarm`, `setup`: move generation, legality, swarms, end of
//!   game and the starting position.
//! - `engine`, `movepick`, `tables`, `scoring`, `records`: what the searches build on: packed
//!   moves with apply and undo, move ordering, history tables, mate scores, table keys.
//! - `util`, `players`, `logging`: swarm helpers, simple heuristic players, game outcomes.
pub mod bits;
pub mod states;
pub mod bitboard;
pub mod board;
pub mod gamestate;
pub mod gamerules;
pub mod iterators;
pub mod swarm;
pub mod engine;
pub mod logging;
pub mod records;
pub mod setup;
pub mod util;
pub mod players;
pub mod tables;
pub mod movepick;
pub mod scoring;
