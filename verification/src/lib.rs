//! A chess engine: bitboards, board state, move encoding, position evaluation
//! after the Stockfish evaluation guide, and the search's bookkeeping tables.
use vstd::prelude::*;

pub mod bitboard;
pub mod coord;
pub mod piece;
pub mod color;
pub mod precomp;
pub mod magics;
pub mod prng;
pub mod utils;
pub mod board;
pub mod eval;
pub mod move_gen;
pub mod result;
pub mod search;
pub mod uci;
pub mod game;
pub mod external_uci;

verus! {
} // verus!
