//! The search's bookkeeping: transpositions, repetitions, move ordering and what a search
//! reports.
use vstd::prelude::*;

pub mod transpositions;
pub mod repetition;
pub mod options;
pub mod diagnostics;
pub mod ordering;
pub mod searcher;

verus! {

/// The score of being mated at once; mate in `n` plies scores `n` less.
pub const IMMEDIATE_MATE_SCORE: i32 = 1000000;

} // verus!
