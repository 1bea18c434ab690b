//! Counting pieces, king distances, the king ring and the squares enemy pawns may attack.
use vstd::prelude::*;
use crate::bitboard::{BitBoard, bit, squares_where, mask_upto, lemma_mask_step, popcount, union_over, lemma_bits_identity};
use crate::bitboard::square_values::{SquareEvaluations, bounded};
use crate::board::Board;
use crate::color::{Color, up_step, side_index};
use crate::coord::{Coord, king_dist};
use crate::piece::Piece;
use crate::precomp::{Precomputed, king_ring_pred, pawn_attacks_spec, pawn_attack_span_pred, clamp16};
use crate::eval::{Evaluation, opposite, pieces_of, side_of, king_of, shift};
use crate::eval::pawns::backward_of;

verus! {

/// Whether square `s` is a light square.
pub open spec fn light_square(s: int) -> bool {
    (s % 8 + s / 8) % 2 != 0
}

/// One bishop each, on squares of different colors.
pub open spec fn opposite_bishops_of(b: Board) -> bool {
    let wb = pieces_of(b, true, Piece::BISHOP);
    let bb = pieces_of(b, false, Piece::BISHOP);
    popcount(wb) == 1 && popcount(bb) == 1
        && light_square(vstd::std_specs::bits::u64_trailing_zeros(wb) as int)
            != light_square(vstd::std_specs::bits::u64_trailing_zeros(bb) as int)
}

/// The king ring of the enemy of `w`; without the squares two enemy pawns defend unless `full`.
pub open spec fn king_ring_of(b: Board, w: bool, full: bool) -> u64 {
    let ring = squares_where(king_ring_pred(king_of(b, !w)));
    let p = pieces_of(b, !w, Piece::PAWN);
    if full {
        ring
    } else {
        ring & !(shift(p, 1, -up_step(w)) & shift(p, -1, -up_step(w)))
    }
}

/// The squares a pawn of the enemy on `s` may attack as it advances, when no pawn of `w` stops
/// it first.
pub open spec fn pawn_span_fn(b: Board, w: bool) -> spec_fn(int) -> u64 {
    |s: int| {
        let span = squares_where(pawn_attack_span_pred(!w, s));
        let ahead = (if 0 <= s / 8 - up_step(w) < 8 { s / 8 - up_step(w) } else if s / 8 - up_step(w) < 0 { 0 } else { 7 }) * 8 + s % 8;
        let blockers = pawn_attacks_spec(crate::bitboard::square_bb(ahead), !w)
            & pieces_of(b, w, Piece::PAWN) & !backward_of(b, w);
        if blockers & span == 0 { span } else { 0 }
    }
}

/// The squares the pawns of the enemy of `w` attack or may come to attack.
pub open spec fn pawn_attacks_span_of(b: Board, w: bool) -> u64 {
    let p = pieces_of(b, !w, Piece::PAWN);
    pawn_attacks_spec(p, !w) | union_over(p & !backward_of(b, !w), pawn_span_fn(b, w), 64)
}

impl<'a> Evaluation<'a> {
    /// The number of bishops of `W`.
    pub fn bishop_count<W: Color, B: Color>(&self) -> (r: i32)
        ensures
            r == popcount(pieces_of(*self.board, W::spec_white(), Piece::BISHOP)),
            0 <= r <= 64,
    {
        self.side_pieces::<W>(Piece::BISHOP).count() as i32
    }

    /// The number of queens of `W`.
    pub fn queen_count<W: Color, B: Color>(&self) -> (r: i32)
        ensures
            r == popcount(pieces_of(*self.board, W::spec_white(), Piece::QUEEN)),
            0 <= r <= 64,
    {
        self.side_pieces::<W>(Piece::QUEEN).count() as i32
    }

    /// The number of pawns of `W`.
    pub fn pawn_count<W: Color, B: Color>(&self) -> (r: i32)
        ensures
            r == popcount(pieces_of(*self.board, W::spec_white(), Piece::PAWN)),
            0 <= r <= 64,
    {
        self.side_pieces::<W>(Piece::PAWN).count() as i32
    }

    /// The number of knights of `W`.
    pub fn knight_count<W: Color, B: Color>(&self) -> (r: i32)
        ensures
            r == popcount(pieces_of(*self.board, W::spec_white(), Piece::KNIGHT)),
            0 <= r <= 64,
    {
        self.side_pieces::<W>(Piece::KNIGHT).count() as i32
    }

    /// The number of rooks of `W`.
    pub fn rook_count<W: Color, B: Color>(&self) -> (r: i32)
        ensures
            r == popcount(pieces_of(*self.board, W::spec_white(), Piece::ROOK)),
            0 <= r <= 64,
    {
        self.side_pieces::<W>(Piece::ROOK).count() as i32
    }

    /// Whether each side has one bishop, and the two stand on squares of different colors.
    pub fn opposite_bishops(&self) -> (r: bool)
        ensures
            r == opposite_bishops_of(*self.board),
    {
        proof {
            crate::piece::lemma_with_color(Piece::BISHOP, Piece::WHITE);
            crate::piece::lemma_with_color(Piece::BISHOP, Piece::BLACK);
        }
        let mut bb1 = self.board.piece_bitboards[11];
        let mut bb2 = self.board.piece_bitboards[19];
        if bb1.count() == 1 && bb2.count() == 1 {
            proof {
                crate::bitboard::lemma_pop_empty(64);
            }
            let a = Coord::from_idx(bb1.pop_lsb() as i8);
            let c = Coord::from_idx(bb2.pop_lsb() as i8);
            a.is_light_square() != c.is_light_square()
        } else {
            false
        }
    }

    /// The king distance from each square to the king of `W`.
    ///
    /// Requires: `king_square`
    pub fn king_distance<W: Color, B: Color>(&self) -> (r: SquareEvaluations)
        requires
            self.board.king_squares_valid(),
        ensures
            forall|s: int| 0 <= s < 64 ==> #[trigger] r.0[s] == king_dist(self.board.king_square[side_index(W::spec_white()) as int], Coord::of_sq(s)),
            bounded(r.0, 7),
    {
        let k = self.king_square::<W, B>();
        proof {
            if W::spec_white() { assert(side_index(W::spec_white()) == 0); } else { assert(side_index(W::spec_white()) == 1); }
        }
        let mut eval = SquareEvaluations::new();
        let mut i: i8 = 0;
        while i < 64
            invariant
                0 <= i <= 64,
                k.valid(),
                k == self.board.king_square[side_index(W::spec_white()) as int],
                forall|s: int| 0 <= s < i ==> #[trigger] eval.0[s] == king_dist(k, Coord::of_sq(s)),
                forall|s: int| 0 <= s < i ==> 0 <= #[trigger] eval.0[s] <= 7,
            decreases 64 - i,
        {
            eval.0[i as usize] = Precomputed::king_distance(k, Coord::from_idx(i)) as i32;
            i += 1;
        }
        eval
    }

    /// The king ring of the enemy of `W`. Unless `full`, squares defended by two pawns are
    /// excluded.
    pub fn king_ring<W: Color, B: Color>(&self, full: bool) -> (r: BitBoard)
        requires
            opposite::<W, B>(),
            self.board.king_squares_valid(),
        ensures
            r.0 == king_ring_of(*self.board, W::spec_white(), full),
    {
        let k = self.king_square::<B, W>();
        proof {
            if B::spec_white() { assert(side_index(B::spec_white()) == 0); } else { assert(side_index(B::spec_white()) == 1); }
        }
        let king_ring = Precomputed::king_ring(k);
        if full {
            return king_ring;
        }
        let pawns = self.side_pieces::<B>(Piece::PAWN);
        let attacked = pawns.shifted_2d(B::offset(1, 1)).and(pawns.shifted_2d(B::offset(-1, 1)));
        king_ring.and(attacked.not())
    }

    /// The number of pieces of `W`.
    pub fn piece_count<W: Color, B: Color>(&self) -> (r: i32)
        ensures
            r == popcount(side_of(*self.board, W::spec_white())),
            0 <= r <= 64,
    {
        self.side_all::<W>().count() as i32
    }

    /// The squares the enemy pawns attack or may come to attack.
    pub fn pawn_attacks_span<W: Color, B: Color>(&self) -> (r: BitBoard)
        requires
            opposite::<W, B>(),
        ensures
            r.0 == pawn_attacks_span_of(*self.board, W::spec_white()),
    {
        let ghost b = *self.board;
        let ghost w = W::spec_white();
        let enemy = self.side_pieces::<B>(Piece::PAWN);
        let other_pawns = self.side_pieces::<W>(Piece::PAWN);
        let pawns = enemy.and(self.backward::<B, W>().not());
        let own_backward = self.backward::<W, B>();
        let mut span: u64 = 0;
        let mut i: i8 = 0;
        while i < 64
            invariant
                0 <= i <= 64,
                b == *self.board,
                w == W::spec_white(),
                opposite::<W, B>(),
                pawns.0 == pieces_of(b, !w, Piece::PAWN) & !backward_of(b, !w),
                other_pawns.0 == pieces_of(b, w, Piece::PAWN),
                own_backward.0 == backward_of(b, w),
                span == union_over(pawns.0, pawn_span_fn(b, w), i as nat),
            decreases 64 - i,
        {
            proof {
                lemma_bits_identity(span);
            }
            if pawns.contains_square(i) {
                let sqr = Coord::from_idx(i);
                let pawn_span = Precomputed::pawn_attack_span(B::index(), sqr);
                let ahead = sqr.add_clamp(W::down());
                let blockers = Precomputed::pawn_attacks(ahead.to_bitboard(), B::is_white())
                    .and(other_pawns).and(own_backward.not());
                proof {
                    assert(ahead.sq() == (if 0 <= i / 8 - up_step(w) < 8 { i / 8 - up_step(w) } else if i / 8 - up_step(w) < 0 { 0 } else { 7 }) * 8 + i % 8);
                }
                if blockers.0 & pawn_span.0 == 0 {
                    span = span | pawn_span.0;
                } else {
                    span = span | 0;
                }
            }
            i += 1;
        }
        Precomputed::pawn_attacks(enemy, B::is_white()).or(BitBoard(span))
    }
}

} // verus!
