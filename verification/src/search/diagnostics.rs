//! What a search reports: how deep it went and what it found.
use vstd::prelude::*;
use crate::search::IMMEDIATE_MATE_SCORE;

verus! {

#[derive(Clone, Copy, Debug)]
pub struct SearchDiagnostics {
    pub depth_searched: u8,
    pub evaluation: i32,
}

impl Default for SearchDiagnostics {
    fn default() -> (r: Self)
        ensures
            r.depth_searched == 0,
            r.evaluation == 0,
    {
        Self { depth_searched: 0, evaluation: 0 }
    }
}

impl SearchDiagnostics {
    /// The evaluation announces a mate: within a thousand plies of the immediate mate.
    pub fn is_mate_score(&self) -> (r: bool)
        requires
            self.evaluation > i32::MIN,
        ensures
            r == (crate::coord::abs(self.evaluation as int) > IMMEDIATE_MATE_SCORE - 1000),
    {
        let abs = if self.evaluation < 0 { -self.evaluation } else { self.evaluation };
        abs > IMMEDIATE_MATE_SCORE - 1000
    }

    /// The number of moves to the mate the evaluation announces.
    pub fn moves_till_mate(&self) -> (r: i32)
        requires
            self.evaluation > i32::MIN,
        ensures
            r == IMMEDIATE_MATE_SCORE - crate::coord::abs(self.evaluation as int) - 1,
    {
        let abs = if self.evaluation < 0 { -self.evaluation } else { self.evaluation };
        IMMEDIATE_MATE_SCORE - abs - 1
    }
}

} // verus!
