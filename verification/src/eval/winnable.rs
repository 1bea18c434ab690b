//! Winnability: how likely the side ahead can convert, from pawns, kings and material.
use vstd::prelude::*;
use crate::bitboard::{BitBoard, squares_where, popcount, ranks_between};
use crate::board::Board;
use crate::color::{Color, rel_rank, side_index};
use crate::coord::abs;
use crate::piece::Piece;
use crate::eval::{Evaluation, opposite, pieces_of};
use crate::eval::material::non_pawn_material_of;
use crate::eval::passed_pawns::candidate_passed_of;

verus! {

/// The winnability adjustment of `w`.
pub open spec fn winnable_of(b: Board, w: bool) -> int {
    let pawns = pieces_of(b, w, Piece::PAWN) | pieces_of(b, !w, Piece::PAWN);
    let fk = b.king_square[side_index(w) as int];
    let ek = b.king_square[side_index(!w) as int];
    let left_flank = squares_where(ranks_between(0, 3)) & pawns > 0;
    let right_flank = squares_where(ranks_between(4, 7)) & pawns > 0;
    let passed = popcount(candidate_passed_of(b, w)) + popcount(candidate_passed_of(b, !w));
    let both_flanks = left_flank && right_flank;
    let outflanking = abs(fk.file - ek.file) - abs(fk.rank - ek.rank);
    let pure_pawn = non_pawn_material_of(b, w) + non_pawn_material_of(b, !w) == 0;
    let almost_unwinnable = outflanking < 0 && !both_flanks;
    let infiltration = rel_rank(w, fk.rank as int) > 3 || rel_rank(w, ek.rank as int) < 4;
    9 * passed + 12 * popcount(pawns) + 9 * outflanking + 21 * (if both_flanks { 1int } else { 0int })
        + 24 * (if infiltration { 1int } else { 0int }) + 51 * (if pure_pawn { 1int } else { 0int })
        - 43 * (if almost_unwinnable { 1int } else { 0int }) - 110
}

pub open spec fn max_i(a: int, c: int) -> int {
    if a > c { a } else { c }
}

pub open spec fn min_i(a: int, c: int) -> int {
    if a < c { a } else { c }
}

/// Returns `(mg, eg)`: the winnability correction of an evaluation `v`, never turning its sign.
pub open spec fn winnable_total_of(b: Board, w: bool, v: int) -> (int, int) {
    let sign = if v >= 0 { 1int } else { -1int };
    let win = winnable_of(b, w);
    (sign * max_i(min_i(win + 50, 0), -abs(v)), sign * max_i(win, -abs(v)))
}

impl<'a> Evaluation<'a> {
    /// The winnability adjustment of `W`.
    pub fn winnable<W: Color, B: Color>(&self) -> (r: i32)
        requires
            self.candidates_ready(),
            opposite::<W, B>(),
        ensures
            r == winnable_of(*self.board, W::spec_white()),
            -5000 <= r <= 5000,
    {
        let passed = (self.candidate_passed[W::index()].count() + self.candidate_passed[B::index()].count()) as i32;
        self.winnable_with::<W, B>(passed)
    }

    fn winnable_with<W: Color, B: Color>(&self, passed: i32) -> (r: i32)
        requires
            self.board.king_squares_valid(),
            opposite::<W, B>(),
            passed == popcount(candidate_passed_of(*self.board, W::spec_white())) + popcount(candidate_passed_of(*self.board, !W::spec_white())),
            0 <= passed <= 128,
        ensures
            r == winnable_of(*self.board, W::spec_white()),
            -5000 <= r <= 5000,
    {
        proof {
            if W::spec_white() { assert(side_index(W::spec_white()) == 0); } else { assert(side_index(W::spec_white()) == 1); }
        }
        let pawns = self.side_pieces::<W>(Piece::PAWN).or(self.side_pieces::<B>(Piece::PAWN));
        let friendly_king = self.king_square::<W, B>();
        let enemy_king = self.king_square::<B, W>();
        let left_flank = BitBoard::from_ranks(0, 3).0 & pawns.0 > 0;
        let right_flank = BitBoard::from_ranks(4, 7).0 & pawns.0 > 0;
        let friendly_king_rank = W::rank(friendly_king.rank());
        let enemy_king_rank = W::rank(enemy_king.rank());
        let both_flanks = if left_flank && right_flank { 1 } else { 0 };
        let df = (friendly_king.file() - enemy_king.file()) as i32;
        let dr = (friendly_king.rank() - enemy_king.rank()) as i32;
        let outflanking = (if df < 0 { -df } else { df }) - (if dr < 0 { -dr } else { dr });
        let pure_pawn = if self.non_pawn_material::<W, B>() + self.non_pawn_material::<B, W>() == 0 { 1 } else { 0 };
        let almost_unwinnable = outflanking < 0 && both_flanks == 0;
        let infiltration = if friendly_king_rank > 3 || enemy_king_rank < 4 { 1 } else { 0 };
        9 * passed
            + 12 * pawns.count() as i32
            + 9 * outflanking
            + 21 * both_flanks
            + 24 * infiltration
            + 51 * pure_pawn
            - 43 * if almost_unwinnable { 1 } else { 0 }
            - 110
    }

    /// Returns `(mg, eg)`: the winnability correction of the evaluation `v`.
    pub fn winnable_total<W: Color, B: Color>(&self, v: i32) -> (r: (i32, i32))
        requires
            self.candidates_ready(),
            opposite::<W, B>(),
            v > i32::MIN,
        ensures
            r.0 == winnable_total_of(*self.board, W::spec_white(), v as int).0,
            r.1 == winnable_total_of(*self.board, W::spec_white(), v as int).1,
            -5000 <= r.0 <= 5000,
            -5000 <= r.1 <= 5000,
    {
        let sign = if v >= 0 { 1 } else { -1 };
        let win = self.winnable::<W, B>();
        let abs_v = if v < 0 { -v } else { v };
        let low = if win + 50 < 0 { win + 50 } else { 0 };
        let mg = if low > -abs_v { low } else { -abs_v };
        let eg = if win > -abs_v { win } else { -abs_v };
        (sign * mg, sign * eg)
    }
}

} // verus!
