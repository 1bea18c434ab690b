//! How a game stands: still going, or ended and how.
use vstd::prelude::*;

verus! {

#[derive(Clone, Copy, PartialEq, Eq, Structural, Debug)]
pub enum GameResult {
    InProgress,
    WhiteMated,
    BlackMated,
    Stalemate,
    Repetition,
    FiftyMoveRule,
    InsufficientMaterial,
    WhiteTimeout,
    BlackTimeout,
}

impl GameResult {
    /// The game is over.
    pub fn is_terminal(self) -> (r: bool)
        ensures
            r == (self != GameResult::InProgress),
    {
        self != GameResult::InProgress
    }

    /// The game ended in a draw: stalemate, repetition, the fifty-move rule or insufficient
    /// material.
    pub fn is_draw(self) -> (r: bool)
        ensures
            r == (self == GameResult::Stalemate || self == GameResult::Repetition
                || self == GameResult::FiftyMoveRule || self == GameResult::InsufficientMaterial),
    {
        matches!(self, GameResult::Stalemate | GameResult::Repetition | GameResult::FiftyMoveRule | GameResult::InsufficientMaterial)
    }

    /// White won: black was mated or ran out of time.
    pub fn is_white_win(self) -> (r: bool)
        ensures
            r == (self == GameResult::BlackMated || self == GameResult::BlackTimeout),
    {
        matches!(self, GameResult::BlackMated | GameResult::BlackTimeout)
    }

    /// Black won: white was mated or ran out of time.
    pub fn is_black_win(self) -> (r: bool)
        ensures
            r == (self == GameResult::WhiteMated || self == GameResult::WhiteTimeout),
    {
        matches!(self, GameResult::WhiteMated | GameResult::WhiteTimeout)
    }
}

/// A finished game is a draw, a win for white or a win for black, and never two of these.
pub proof fn lemma_result_outcomes(r: GameResult)
    ensures
        r != GameResult::InProgress <==> ((r == GameResult::Stalemate || r == GameResult::Repetition
            || r == GameResult::FiftyMoveRule || r == GameResult::InsufficientMaterial)
            || (r == GameResult::BlackMated || r == GameResult::BlackTimeout)
            || (r == GameResult::WhiteMated || r == GameResult::WhiteTimeout)),
{
}

} // verus!
