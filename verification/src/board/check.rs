//! Whether the side to move is in check.
use vstd::prelude::*;
use crate::bitboard::squares_where;
use crate::piece::Piece;
use crate::precomp::{Precomputed, knight_pred, pawn_attack_pred};
use crate::magics::{Magics, rook_attacks_spec, bishop_attacks_spec};
use crate::board::Board;

verus! {

/// Square `k` is attacked by a slider, knight or pawn of the side not to move.
pub open spec fn attacked_by_enemy(b: Board, k: int) -> bool {
    let blockers = b.all_pieces_bitboard.0;
    ||| rook_attacks_spec(k, blockers) & b.enemy_orthogonal_sliders.0 != 0
    ||| bishop_attacks_spec(k, blockers) & b.enemy_diagonal_sliders.0 != 0
    ||| squares_where(knight_pred(k)) & b.piece_bitboards[(Piece::KNIGHT | b.opponent_color) as int].0 != 0
    ||| squares_where(pawn_attack_pred(b.white_to_move, k)) & b.piece_bitboards[(Piece::PAWN | b.opponent_color) as int].0 != 0
}

/// The king of the side to move stands on an attacked square.
pub open spec fn in_check_of(b: Board) -> bool {
    attacked_by_enemy(b, b.king_square[b.move_color_idx as int].sq())
}

impl Board {
    /// Whether the side to move is in check, from the cached answer if there is one.
    pub fn in_check(&mut self) -> (r: bool)
        requires
            old(self).king_squares_valid(),
            old(self).move_color_idx < 2,
            old(self).opponent_color == 8 || old(self).opponent_color == 16,
        ensures
            r == (match old(self).cached_in_check_val {
                Some(v) => v,
                None => in_check_of(*old(self)),
            }),
            *final(self) == (Board { cached_in_check_val: Some(r), ..*old(self) }),
    {
        if let Some(val) = self.cached_in_check_val {
            return val;
        }
        let val = self.get_in_check_state();
        self.cached_in_check_val = Some(val);
        val
    }

    pub(crate) fn get_in_check_state(&self) -> (r: bool)
        requires
            self.king_squares_valid(),
            self.move_color_idx < 2,
            self.opponent_color == 8 || self.opponent_color == 16,
        ensures
            r == in_check_of(*self),
    {
        let king_sqr = self.king_square[self.move_color_idx];
        let blockers = self.all_pieces_bitboard;
        proof {
            crate::piece::lemma_with_color(Piece::KNIGHT, self.opponent_color);
            crate::piece::lemma_with_color(Piece::PAWN, self.opponent_color);
        }

        if self.enemy_orthogonal_sliders.0 != 0 {
            let rook_attacks = Magics::rook_attacks(king_sqr, blockers);
            if rook_attacks.0 & self.enemy_orthogonal_sliders.0 != 0 {
                return true;
            }
        }
        if self.enemy_diagonal_sliders.0 != 0 {
            let bishop_attacks = Magics::bishop_attacks(king_sqr, blockers);
            if bishop_attacks.0 & self.enemy_diagonal_sliders.0 != 0 {
                return true;
            }
        }
        proof {
            let a = rook_attacks_spec(king_sqr.sq(), blockers.0);
            let c = bishop_attacks_spec(king_sqr.sq(), blockers.0);
            assert(a & 0u64 == 0u64 && c & 0u64 == 0u64) by (bit_vector);
        }

        let enemy_knights = self.piece_bitboards[(Piece::KNIGHT | self.opponent_color) as usize];
        if Precomputed::knight_moves(king_sqr).0 & enemy_knights.0 != 0 {
            return true;
        }

        let enemy_pawns = self.piece_bitboards[(Piece::PAWN | self.opponent_color) as usize];
        let pawn_attack_mask = if self.white_to_move {
            Precomputed::white_pawn_attacks(king_sqr)
        } else {
            Precomputed::black_pawn_attacks(king_sqr)
        };
        if pawn_attack_mask.0 & enemy_pawns.0 != 0 {
            return true;
        }

        false
    }
}

} // verus!
