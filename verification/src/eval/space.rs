//! Space: safe squares in the center behind the pawns, weighted by the pieces on the board.
use vstd::prelude::*;
use crate::bitboard::{BitBoard, squares_where, popcount, ranks_between, files_between};
use crate::board::Board;
use crate::color::{Color, up_step};
use crate::piece::Piece;
use crate::eval::{Evaluation, opposite, pieces_of, side_of, shift};
use crate::eval::attack::{type_attacks, all_attacks_of};
use crate::eval::material::non_pawn_material_of;

verus! {

/// Returns `(space, space behind a pawn of `w`)`: the safe central squares on the second to
/// fourth rank of `w`.
pub open spec fn space_area_of(b: Board, w: bool) -> (u64, u64) {
    let p = pieces_of(b, w, Piece::PAWN);
    let u = up_step(w);
    let lo = if w { 1int } else { 4int };
    let hi = if w { 3int } else { 6int };
    let center = squares_where(ranks_between(lo, hi)) & squares_where(files_between(2, 5));
    let space = center & !p & !type_attacks(b, !w, Piece::PAWN).0;
    let behind = (shift(p, 0, -u) | shift(p, 0, -2 * u) | shift(p, 0, -3 * u)) & !all_attacks_of(b, !w);
    (space, space & behind)
}

/// Pawns of either side that are blocked or can't advance safely.
pub open spec fn blocked_pawns_of(b: Board, w: bool) -> u64 {
    let p = pieces_of(b, w, Piece::PAWN);
    let e = pieces_of(b, !w, Piece::PAWN);
    let u = up_step(w);
    (p & (shift(e, 0, -u) | (shift(e, -1, -2 * u) & shift(e, 1, -2 * u))))
        | (e & (shift(p, 0, u) | (shift(p, -1, 2 * u) & shift(p, 1, 2 * u))))
}

/// The space score of `w`; zero with little material on the board.
pub open spec fn space_of(b: Board, w: bool) -> int {
    if non_pawn_material_of(b, w) + non_pawn_material_of(b, !w) < 12222 {
        0
    } else {
        let blocked = popcount(blocked_pawns_of(b, w)) as int;
        let weight = popcount(side_of(b, w)) - 3 + (if blocked < 9 { blocked } else { 9 });
        let area = space_area_of(b, w);
        (popcount(area.0) + popcount(area.1)) * weight * weight / 16
    }
}

impl<'a> Evaluation<'a> {
    /// Returns `(space, space behind pawn)`.
    pub fn space_area<W: Color, B: Color>(&self) -> (r: (BitBoard, BitBoard))
        requires
            self.attacks_ready(),
            opposite::<W, B>(),
        ensures
            r.0.0 == space_area_of(*self.board, W::spec_white()).0,
            r.1.0 == space_area_of(*self.board, W::spec_white()).1,
    {
        let pawns = self.side_pieces::<W>(Piece::PAWN);
        let (lo, hi) = W::ranks(1, 3);
        let center = BitBoard::from_ranks(lo, hi).and(BitBoard::from_files(2, 5));
        let space = center.and(pawns.not()).and(self.attacks_by::<B, W>(Piece::PAWN).0.not());
        let behind_pawn = pawns.shifted_2d(W::offset(0, -1))
            .or(pawns.shifted_2d(W::offset(0, -2)))
            .or(pawns.shifted_2d(W::offset(0, -3)))
            .and(self.all_attacks::<B, W>().not());
        (space, space.and(behind_pawn))
    }

    /// The space score of `W`.
    pub fn space<W: Color, B: Color>(&self) -> (r: i32)
        requires
            self.attacks_ready(),
            opposite::<W, B>(),
        ensures
            r == space_of(*self.board, W::spec_white()),
            0 <= r <= 39200,
    {
        if self.non_pawn_material::<W, B>() + self.non_pawn_material::<B, W>() < 12222 {
            return 0;
        }
        let piece_count = self.piece_count::<W, B>();
        let friendly_pawns = self.side_pieces::<W>(Piece::PAWN);
        let enemy_pawns = self.side_pieces::<B>(Piece::PAWN);
        let blocked = friendly_pawns.and(enemy_pawns.shifted_2d(W::offset(0, -1))
            .or(enemy_pawns.shifted_2d(W::offset(-1, -2)).and(enemy_pawns.shifted_2d(W::offset(1, -2)))))
            .or(enemy_pawns.and(friendly_pawns.shifted_2d(W::offset(0, 1))
                .or(friendly_pawns.shifted_2d(W::offset(-1, 2)).and(friendly_pawns.shifted_2d(W::offset(1, 2))))));
        let bc = blocked.count() as i32;
        let weight = piece_count - 3 + if bc < 9 { bc } else { 9 };
        let area = self.space_area::<W, B>();
        let c = (area.0.count() + area.1.count()) as i32;
        proof {
            assert(-384 <= c * weight <= 128 * 70 && 0 <= c * weight * weight <= 128 * 70 * 70) by (nonlinear_arith)
                requires 0 <= c <= 128, -3 <= weight <= 70;
        }
        c * weight * weight / 16
    }
}

} // verus!
