//! Material imbalance: what each piece is worth next to the other pieces on the board.
use vstd::prelude::*;
use crate::bitboard::{BitBoard, bit, popcount, lemma_bit_ops};
use crate::bitboard::square_values::{SquareEvaluations, bounded, sum_below};
use crate::board::Board;
use crate::color::Color;
use crate::coord::Coord;
use crate::piece::Piece;
use crate::eval::{Evaluation, opposite, pieces_of, side_of, lemma_side_piece};
use crate::eval::pawns::{sum_squares, div_trunc, lemma_sum_squares_of};

verus! {

pub const Q_OURS: [[i32; 6]; 5] = [
    [40, 38, 0, 0, 0, 0],
    [32, 255, -62, 0, 0, 0],
    [0, 104, 4, 0, 0, 0],
    [-26, -2, 47, 105, -208, 0],
    [-189, 24, 117, 133, -134, -6],
];

pub const Q_THEIRS: [[i32; 6]; 5] = [
    [36, 0, 0, 0, 0, 0],
    [9, 63, 0, 0, 0, 0],
    [59, 65, 42, 0, 0, 0],
    [46, 39, 24, -24, 0, 0],
    [97, 100, -42, 137, 268, 0],
];

/// The pieces of `w` other than the king.
pub open spec fn non_kings(b: Board, w: bool) -> u64 {
    side_of(b, w) & !pieces_of(b, w, Piece::KING)
}

/// What the pieces of side `w` (`ours`) or of its enemy add to a piece of type `t_me` of `w`:
/// the table entry of each piece of no greater type.
pub open spec fn imbalance_terms(b: Board, w: bool, t_me: int, ours: bool) -> spec_fn(int) -> int {
    |u: int| {
        let side = if ours { w } else { !w };
        let t = b.square[u].ptype() as int;
        if bit(non_kings(b, side), u) && t <= t_me {
            if ours { Q_OURS[t_me - 1][t] as int } else { Q_THEIRS[t_me - 1][t] as int }
        } else {
            0
        }
    }
}

/// The imbalance value of the piece of `w` on `s`.
pub open spec fn imbalance_at(b: Board, w: bool, s: int) -> int {
    if bit(non_kings(b, w), s) {
        let t = b.square[s].ptype() as int;
        sum_squares(imbalance_terms(b, w, t, true), 64) + sum_squares(imbalance_terms(b, w, t, false), 64)
            + (if popcount(pieces_of(b, !w, Piece::BISHOP)) > 1 { Q_THEIRS[t - 1][0] as int } else { 0 })
            + (if popcount(pieces_of(b, w, Piece::BISHOP)) > 1 { Q_OURS[t - 1][0] as int } else { 0 })
    } else {
        0
    }
}

pub open spec fn imbalance_fn(b: Board, w: bool) -> spec_fn(int) -> int {
    |s: int| imbalance_at(b, w, s)
}

pub open spec fn bishop_pair_of(b: Board, w: bool) -> int {
    if popcount(pieces_of(b, w, Piece::BISHOP)) > 1 { 1438 } else { 0 }
}

/// The imbalance score of `w` against its enemy.
pub open spec fn imbalance_total_of(b: Board, w: bool) -> int {
    div_trunc(sum_squares(imbalance_fn(b, w), 64) - sum_squares(imbalance_fn(b, !w), 64)
        + bishop_pair_of(b, w) - bishop_pair_of(b, !w), 16)
}

pub proof fn lemma_q_bound(t: int, u: int)
    requires
        0 <= t < 5,
        0 <= u < 6,
    ensures
        -300 <= Q_OURS[t][u] <= 300,
        -300 <= Q_THEIRS[t][u] <= 300,
{
    broadcast use vstd::array::group_array_axioms;
}

impl<'a> Evaluation<'a> {
    /// The sum of the terms the pieces of one side add to a piece of type `t_me` of `W`.
    fn imbalance_sum<W: Color, B: Color>(&self, t_me: u8, ours: bool) -> (r: i32)
        requires
            self.board.wf(),
            opposite::<W, B>(),
            1 <= t_me <= 5,
        ensures
            r == sum_squares(imbalance_terms(*self.board, W::spec_white(), t_me as int, ours), 64),
            -300 * 64 <= r <= 300 * 64,
    {
        let ghost b = *self.board;
        let ghost w = W::spec_white();
        let pieces = if ours {
            self.side_all::<W>().and(self.side_pieces::<W>(Piece::KING).not())
        } else {
            self.side_all::<B>().and(self.side_pieces::<B>(Piece::KING).not())
        };
        let mut v: i32 = 0;
        let mut i: i8 = 0;
        while i < 64
            invariant
                0 <= i <= 64,
                b == *self.board,
                b.wf(),
                w == W::spec_white(),
                1 <= t_me <= 5,
                pieces.0 == non_kings(b, if ours { w } else { !w }),
                v == sum_squares(imbalance_terms(b, w, t_me as int, ours), i as nat),
                -300 * i <= v <= 300 * i,
            decreases 64 - i,
        {
            let ghost side = if ours { w } else { !w };
            proof {
                lemma_bit_ops(side_of(b, side), !pieces_of(b, side, Piece::KING), i as int);
                lemma_bit_ops(pieces_of(b, side, Piece::KING), 0, i as int);
            }
            if pieces.contains_square(i) {
                proof {
                    lemma_side_piece(b, side, i as int);
                }
                let t = self.board.square[i as usize].piece_type();
                if t <= t_me {
                    proof {
                        lemma_q_bound((t_me - 1) as int, t as int);
                    }
                    v = v + if ours { Q_OURS[t_me as usize - 1][t as usize] } else { Q_THEIRS[t_me as usize - 1][t as usize] };
                }
            }
            i += 1;
        }
        v
    }

    /// The imbalance value of each piece of `W`.
    pub fn imbalance<W: Color, B: Color>(&self) -> (r: SquareEvaluations)
        requires
            self.board.wf(),
            opposite::<W, B>(),
        ensures
            forall|s: int| 0 <= s < 64 ==> #[trigger] r.0[s] == imbalance_at(*self.board, W::spec_white(), s),
            bounded(r.0, 40000),
    {
        let ghost b = *self.board;
        let ghost w = W::spec_white();
        let mut eval = SquareEvaluations::new();
        let sqrs = self.side_all::<W>().and(self.side_pieces::<W>(Piece::KING).not());
        let bishops = (self.bishop_count::<B, W>(), self.bishop_count::<W, B>());
        let mut i: i8 = 0;
        while i < 64
            invariant
                0 <= i <= 64,
                b == *self.board,
                b.wf(),
                w == W::spec_white(),
                opposite::<W, B>(),
                sqrs.0 == non_kings(b, w),
                bishops.0 == popcount(pieces_of(b, !w, Piece::BISHOP)),
                bishops.1 == popcount(pieces_of(b, w, Piece::BISHOP)),
                forall|s: int| 0 <= s < i ==> #[trigger] eval.0[s] == imbalance_at(b, w, s),
                forall|s: int| i <= s < 64 ==> #[trigger] eval.0[s] == 0,
                bounded(eval.0, 40000),
            decreases 64 - i,
        {
            proof {
                lemma_bit_ops(side_of(b, w), !pieces_of(b, w, Piece::KING), i as int);
                lemma_bit_ops(pieces_of(b, w, Piece::KING), 0, i as int);
            }
            if sqrs.contains_square(i) {
                proof {
                    lemma_side_piece(b, w, i as int);
                }
                let pval = self.board.square[i as usize].piece_type();
                let mut v = self.imbalance_sum::<W, B>(pval, true) + self.imbalance_sum::<W, B>(pval, false);
                proof {
                    lemma_q_bound((pval - 1) as int, 0);
                }
                if bishops.0 > 1 {
                    v = v + Q_THEIRS[pval as usize - 1][0];
                }
                if bishops.1 > 1 {
                    v = v + Q_OURS[pval as usize - 1][0];
                }
                eval.0[i as usize] = v;
            }
            i += 1;
        }
        eval
    }

    /// 1438 when `W` has two or more bishops.
    pub fn bishop_pair<W: Color, B: Color>(&self) -> (r: i32)
        ensures
            r == bishop_pair_of(*self.board, W::spec_white()),
    {
        if self.bishop_count::<W, B>() > 1 { 1438 } else { 0 }
    }

    /// The imbalance score of `W` against `B`.
    pub fn imbalance_total<W: Color, B: Color>(&self) -> (r: i32)
        requires
            self.board.wf(),
            opposite::<W, B>(),
        ensures
            r == imbalance_total_of(*self.board, W::spec_white()),
            -400000 <= r <= 400000,
    {
        let ghost b = *self.board;
        let ghost w = W::spec_white();
        let mine = self.imbalance::<W, B>();
        let theirs = self.imbalance::<B, W>();
        proof {
            lemma_sum_squares_of(mine.0, imbalance_fn(b, w), 64);
            lemma_sum_squares_of(theirs.0, imbalance_fn(b, !w), 64);
            crate::bitboard::square_values::lemma_sum_bound(mine.0, 40000, 64);
            crate::bitboard::square_values::lemma_sum_bound(theirs.0, 40000, 64);
        }
        let v = mine.count() - theirs.count() + self.bishop_pair::<W, B>() - self.bishop_pair::<B, W>();
        if v >= 0 { v / 16 } else { -((-v) / 16) }
    }
}

} // verus!
